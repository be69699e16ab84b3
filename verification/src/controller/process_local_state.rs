//! The per-tick local state snapshot: for every lane, the position-sorted
//! list of vehicles on it, plus one availability flag per spawn lane at
//! the designated entry intersection.  Rebuilt from scratch every tick and
//! discarded after it.

use crate::model::board::{Board, IntersectionIndex, RoadIndex};
use crate::model::common::{
    AbsoluteDirection, Around, AxisDirection, CarIndex, InOutDirection, LaneDirection, LaneIndex,
};
use crate::model::{stateful, stateless};
use vstd::prelude::*;

verus! {

/// A snapshot road: one entry list per lane, in each direction.
#[derive(Clone, Debug)]
pub struct Road {
    pub lane_to_high: Vec<Lane>,
    pub lane_to_low: Vec<Lane>,
}

/// A snapshot lane: the `(position, vehicle index)` pairs of the vehicles
/// on it, in ascending position order.
#[derive(Clone, Debug)]
pub struct Lane {
    pub cars: Vec<(i64, CarIndex)>,
}

impl Road {
    pub open spec fn spec_lanes(&self, lane_direction: LaneDirection) -> Seq<Lane> {
        match lane_direction {
            LaneDirection::HighToLow => self.lane_to_low@,
            LaneDirection::LowToHigh => self.lane_to_high@,
        }
    }

    /// The lanes travelling in `lane_direction`.
    pub fn lanes_to_direction(&self, lane_direction: LaneDirection) -> (r: &Vec<Lane>)
        ensures
            r@ == self.spec_lanes(lane_direction),
    {
        match lane_direction {
            LaneDirection::HighToLow => &self.lane_to_low,
            LaneDirection::LowToHigh => &self.lane_to_high,
        }
    }
}

/// `new` is `entries` with `(position, car_index)` inserted at `k`, the
/// first place whose position exceeds `position`.
pub open spec fn inserted_at(
    entries: Seq<(i64, CarIndex)>,
    new: Seq<(i64, CarIndex)>,
    k: int,
    position: i64,
    car_index: CarIndex,
) -> bool {
    &&& 0 <= k <= entries.len()
    &&& new == entries.insert(k, (position, car_index))
    &&& forall|t: int| 0 <= t < k ==> entries[t].0 <= position
    &&& forall|t: int| k <= t < entries.len() ==> position < entries[t].0
}

/// One lane's entries are exactly the vehicles among the first `upto`
/// slots occupying it: sorted by position; every entry a real occupant at
/// its position; every occupant present; and no index repeated, except
/// that a vehicle changing lanes within this one lane appears once per
/// role and never more.
pub open spec fn lane_reflects(
    entries: Seq<(i64, CarIndex)>,
    cars: Seq<Option<stateful::Car>>,
    upto: int,
    a: AxisDirection,
    idx: RoadIndex,
    ld: LaneDirection,
    li: int,
) -> bool {
    &&& sorted_by_position(entries)
    &&& forall|k: int|
        0 <= k < entries.len() ==> (#[trigger] entries[k]).1 < upto && occupies(
            cars,
            entries[k].1 as int,
            a,
            idx,
            ld,
            li,
        ) && entries[k].0 == lane_position(cars, entries[k].1 as int)
    &&& forall|ci: int|
        0 <= ci < upto && occupies(cars, ci, a, idx, ld, li) ==> #[trigger] entries.contains(
            (lane_position(cars, ci), ci as usize),
        )
    &&& forall|k1: int, k2: int|
        0 <= k1 < k2 < entries.len() && (#[trigger] entries[k1]).1 == (#[trigger] entries[k2]).1
            ==> changing_here_twice(cars, entries[k1].1 as int, a, idx, ld, li)
    &&& forall|k1: int, k2: int, k3: int|
        0 <= k1 < k2 < k3 < entries.len() ==> !((#[trigger] entries[k1]).1 == (
        #[trigger] entries[k2]).1 && entries[k2].1 == (#[trigger] entries[k3]).1)
}

/// Lane `(a, idx, ld, li)` exists in the city.
pub open spec fn lane_exists(
    city: &stateless::City,
    a: AxisDirection,
    idx: RoadIndex,
    ld: LaneDirection,
    li: int,
) -> bool {
    &&& city.board.road_in_bounds(a, idx)
    &&& city.board.spec_road(a, idx) is Some
    &&& 0 <= li < (city.board.spec_road(a, idx)->Some_0).spec_lanes(ld).len()
}

/// Entries are sorted by position, ascending.
pub open spec fn sorted_by_position(entries: Seq<(i64, CarIndex)>) -> bool {
    forall|a: int, b: int| 0 <= a < b < entries.len() ==> entries[a].0 <= entries[b].0
}

/// Vehicle `ci` currently occupies lane `(rd, ri, ld, li)`: it travels on
/// it, or it is mid lane-change with this lane as source or destination.
pub open spec fn occupies(
    cars: Seq<Option<stateful::Car>>,
    ci: int,
    rd: AxisDirection,
    ri: RoadIndex,
    ld: LaneDirection,
    li: int,
) -> bool {
    0 <= ci < cars.len() && match cars[ci] {
        Some(car) => match car.location {
            stateful::Location::OnLane {
                road_direction,
                road_index,
                lane_direction,
                lane_index,
                ..
            } => road_direction == rd && road_index == ri && lane_direction == ld && lane_index
                == li,
            stateful::Location::ChangingLane {
                road_direction,
                road_index,
                lane_direction,
                from_lane_index,
                to_lane_index,
                ..
            } => road_direction == rd && road_index == ri && lane_direction == ld && (
            from_lane_index == li || to_lane_index == li),
            stateful::Location::InIntersection { .. } => false,
        },
        None => false,
    }
}

/// Vehicle `ci` is changing lanes with this one lane as both source and
/// destination, so it is indexed here once per role.
pub open spec fn changing_here_twice(
    cars: Seq<Option<stateful::Car>>,
    ci: int,
    rd: AxisDirection,
    ri: RoadIndex,
    ld: LaneDirection,
    li: int,
) -> bool {
    0 <= ci < cars.len() && match cars[ci] {
        Some(car) => match car.location {
            stateful::Location::ChangingLane {
                road_direction,
                road_index,
                lane_direction,
                from_lane_index,
                to_lane_index,
                ..
            } => road_direction == rd && road_index == ri && lane_direction == ld
                && from_lane_index == li && to_lane_index == li,
            _ => false,
        },
        None => false,
    }
}

/// The along-lane position of a vehicle that occupies a lane.
pub open spec fn lane_position(cars: Seq<Option<stateful::Car>>, ci: int) -> i64 {
    match cars[ci] {
        Some(car) => match car.location {
            stateful::Location::OnLane { position, .. } => position,
            stateful::Location::ChangingLane { position, .. } => position,
            stateful::Location::InIntersection { position, .. } => position,
        },
        None => 0,
    }
}

/// A vehicle blocks spawn lane `li` on side `d` of the entry intersection:
/// it sits on that out lane within the minimum distance, or it is crossing
/// the entry intersection toward that lane.
pub open spec fn spawn_lane_blocked(
    city: &stateless::City,
    cars: Seq<Option<stateful::Car>>,
    d: AbsoluteDirection,
    li: int,
) -> bool {
    spawn_lane_blocked_prefix(city, cars, cars.len() as int, d, li)
}

/// A vehicle among the first `upto` slots blocks the spawn lane.
pub open spec fn spawn_lane_blocked_prefix(
    city: &stateless::City,
    cars: Seq<Option<stateful::Car>>,
    upto: int,
    d: AbsoluteDirection,
    li: int,
) -> bool {
    exists|ci: int| 0 <= ci < upto && #[trigger] blocks_spawn_lane(city, cars[ci], d, li)
}

pub open spec fn blocks_spawn_lane(
    city: &stateless::City,
    slot: Option<stateful::Car>,
    d: AbsoluteDirection,
    li: int,
) -> bool {
    let side = city.board.spec_context_side(
        city.car_out_intersection.0 as int,
        city.car_out_intersection.1 as int,
        d,
    );
    match slot {
        Some(car) => match car.location {
            stateful::Location::OnLane {
                road_direction,
                road_index,
                lane_direction,
                lane_index,
                position,
                ..
            } => side is Some && road_direction
                == crate::model::common::spec_axis_direction(d) && Some(road_index) == side
                && lane_direction == crate::model::common::spec_absolute_in_out_to_lane(
                d,
                InOutDirection::Out,
            ) && lane_index == li && position < city.car_out_min_distance,
            stateful::Location::InIntersection {
                intersection_index,
                to_direction,
                to_lane_index,
                ..
            } => intersection_index == city.car_out_intersection && to_direction == d
                && to_lane_index == li,
            _ => false,
        },
        None => false,
    }
}

/// The per-worker snapshot of the global vehicle state.
#[derive(Clone, Debug)]
pub struct ProcessLocalState {
    pub board: Board<(), Option<Road>>,
    pub car_out_intersection_lane_out_availability: Around<Vec<bool>>,
}

impl ProcessLocalState {
    /// The snapshot road grid mirrors the static one, lane for lane.
    pub open spec fn matches_city(&self, city: &stateless::City) -> bool {
        &&& self.board.wf()
        &&& self.board.spec_m() == city.board.spec_m()
        &&& self.board.spec_n() == city.board.spec_n()
        &&& forall|a: AxisDirection, idx: RoadIndex|
            #[trigger] city.board.road_in_bounds(a, idx) ==> (match (
                city.board.spec_road(a, idx),
                self.board.spec_road(a, idx),
            ) {
                (Some(road), Some(snap)) => {
                    &&& snap.lane_to_high.len() == road.lane_to_high.len()
                    &&& snap.lane_to_low.len() == road.lane_to_low.len()
                },
                (None, None) => true,
                _ => false,
            })
    }

    /// The entries of snapshot lane `(rd, ri, ld, li)`.
    pub open spec fn lane_entries(
        &self,
        rd: AxisDirection,
        ri: RoadIndex,
        ld: LaneDirection,
        li: int,
    ) -> Seq<(i64, CarIndex)> {
        (self.board.spec_road(rd, ri)->Some_0).spec_lanes(ld)[li].cars@
    }

    /// Every lane's entries are exactly the vehicles among the first
    /// `upto` slots occupying it, sorted by position.
    pub open spec fn reflects_prefix(
        &self,
        city: &stateless::City,
        cars: Seq<Option<stateful::Car>>,
        upto: int,
    ) -> bool {
        forall|a: AxisDirection, idx: RoadIndex, ld: LaneDirection, li: int|
            #[trigger] lane_exists(city, a, idx, ld, li) ==> lane_reflects(
                self.lane_entries(a, idx, ld, li),
                cars,
                upto,
                a,
                idx,
                ld,
                li,
            )
    }

    /// Every lane's entries are exactly the vehicles occupying it, sorted
    /// by position.
    pub open spec fn reflects(&self, city: &stateless::City, cars: Seq<Option<stateful::Car>>)
        -> bool {
        self.reflects_prefix(city, cars, cars.len() as int)
    }

    /// The availability flags say exactly which spawn lanes are free of
    /// blocking vehicles among the first `upto` slots.
    pub open spec fn reflects_availability_prefix(
        &self,
        city: &stateless::City,
        cars: Seq<Option<stateful::Car>>,
        upto: int,
    ) -> bool {
        forall|d: AbsoluteDirection|
            {
                let side = city.board.spec_context_side(
                    city.car_out_intersection.0 as int,
                    city.car_out_intersection.1 as int,
                    d,
                );
                let avail = #[trigger] self.car_out_intersection_lane_out_availability.spec_get(
                    d,
                );
                match side {
                    Some(rid) => {
                        let road = city.board.spec_road(
                            crate::model::common::spec_axis_direction(d),
                            rid,
                        )->Some_0;
                        let out_ld = crate::model::common::spec_absolute_in_out_to_lane(
                            d,
                            InOutDirection::Out,
                        );
                        &&& avail.len() == road.spec_lanes(out_ld).len()
                        &&& forall|li: int|
                            0 <= li < avail.len() ==> (avail[li]
                                <==> !spawn_lane_blocked_prefix(city, cars, upto, d, li))
                    },
                    None => avail.len() == 0,
                }
            }
    }

    /// The availability flags say exactly which spawn lanes are free.
    pub open spec fn reflects_availability(
        &self,
        city: &stateless::City,
        cars: Seq<Option<stateful::Car>>,
    ) -> bool {
        self.reflects_availability_prefix(city, cars, cars.len() as int)
    }
}


/// Inserting keeps every old element present.
pub proof fn lemma_insert_preserves_contains<T>(s: Seq<T>, k: int, x: T, e: T)
    requires
        0 <= k <= s.len(),
        s.contains(e),
    ensures
        s.insert(k, x).contains(e),
{
    let i = choose|i: int| 0 <= i < s.len() && s[i] == e;
    if i < k {
        assert(s.insert(k, x)[i] == e);
    } else {
        assert(s.insert(k, x)[i + 1] == e);
    }
}

/// A vector of `n` empty snapshot lanes.
fn empty_lanes(n: usize) -> (r: Vec<Lane>)
    ensures
        r.len() == n,
        forall|k: int| 0 <= k < n ==> (#[trigger] r[k]).cars@.len() == 0,
{
    let mut r: Vec<Lane> = Vec::new();
    let mut k: usize = 0;
    while k < n
        invariant
            k <= n,
            r.len() == k,
            forall|t: int| 0 <= t < k ==> (#[trigger] r[t]).cars@.len() == 0,
        decreases n - k,
    {
        r.push(Lane { cars: Vec::new() });
        k = k + 1;
    }
    r
}

/// An empty snapshot road matrix mirroring the static one.
fn empty_roads(src: &crate::util::matrix::Matrix<Option<stateless::Road>>) -> (r:
    crate::util::matrix::Matrix<Option<Road>>)
    requires
        src.wf(),
    ensures
        r.wf(),
        r.shape == src.shape,
        forall|k: int|
            0 <= k < r.storage.len() ==> (match (src.storage[k], #[trigger] r.storage[k]) {
                (Some(road), Some(snap)) => {
                    &&& snap.lane_to_high.len() == road.lane_to_high.len()
                    &&& snap.lane_to_low.len() == road.lane_to_low.len()
                    &&& forall|ld: LaneDirection, li: int|
                        0 <= li < snap.spec_lanes(ld).len() ==> (#[trigger] snap.spec_lanes(
                            ld,
                        )[li]).cars@.len() == 0
                },
                (None, None) => true,
                _ => false,
            }),
{
    let mut storage: Vec<Option<Road>> = Vec::new();
    let mut k: usize = 0;
    while k < src.storage.len()
        invariant
            k <= src.storage.len(),
            storage.len() == k,
            forall|t: int|
                0 <= t < k ==> (match (src.storage[t], #[trigger] storage[t]) {
                    (Some(road), Some(snap)) => {
                        &&& snap.lane_to_high.len() == road.lane_to_high.len()
                        &&& snap.lane_to_low.len() == road.lane_to_low.len()
                        &&& forall|ld: LaneDirection, li: int|
                            0 <= li < snap.spec_lanes(ld).len() ==> (#[trigger] snap.spec_lanes(
                                ld,
                            )[li]).cars@.len() == 0
                    },
                    (None, None) => true,
                    _ => false,
                }),
        decreases src.storage.len() - k,
    {
        let cell = match &src.storage[k] {
            Some(road) => {
                let snap = Road {
                    lane_to_high: empty_lanes(road.lane_to_high.len()),
                    lane_to_low: empty_lanes(road.lane_to_low.len()),
                };
                Some(snap)
            },
            None => None,
        };
        storage.push(cell);
        k = k + 1;
    }
    crate::util::matrix::Matrix { shape: src.shape, storage }
}

impl ProcessLocalState {
    /// An empty snapshot of the city: every lane list empty, every spawn
    /// lane available.
    pub fn empty(city: &stateless::City) -> (r: ProcessLocalState)
        requires
            city.wf_geometry(),
            city.wf_roads(),
        ensures
            r.matches_city(city),
            forall|cars: Seq<Option<stateful::Car>>| #[trigger] r.reflects_prefix(city, cars, 0),
            forall|cars: Seq<Option<stateful::Car>>|
                #[trigger] r.reflects_availability_prefix(city, cars, 0),
    {
        let horizontal = empty_roads(&city.board.horizontal_roads);
        let vertical = empty_roads(&city.board.vertical_roads);
        let empty_board = Board {
            intersections: crate::util::matrix::Matrix::with_shape((), city.board.shape()),
            horizontal_roads: horizontal,
            vertical_roads: vertical,
        };
        proof {
            let (m, n) = city.board.intersections.shape;
            assert(m * n <= usize::MAX) by (nonlinear_arith)
                requires
                    m <= 1000,
                    n <= 1000,
            ;
        }
        let context = city.board.context_of_intersection(city.car_out_intersection);
        let mut availability: Around<Vec<bool>> = Around {
            north: Vec::new(),
            west: Vec::new(),
            south: Vec::new(),
            east: Vec::new(),
        };
        let directions = AbsoluteDirection::directions();
        let mut di: usize = 0;
        while di < 4
            invariant
                di <= 4,
                city.wf_geometry(),
                city.wf_roads(),
                directions@ == seq![
                    AbsoluteDirection::North,
                    AbsoluteDirection::South,
                    AbsoluteDirection::East,
                    AbsoluteDirection::West,
                ],
                context.north == city.board.spec_context_side(
                    city.car_out_intersection.0 as int,
                    city.car_out_intersection.1 as int,
                    AbsoluteDirection::North,
                ),
                context.south == city.board.spec_context_side(
                    city.car_out_intersection.0 as int,
                    city.car_out_intersection.1 as int,
                    AbsoluteDirection::South,
                ),
                context.east == city.board.spec_context_side(
                    city.car_out_intersection.0 as int,
                    city.car_out_intersection.1 as int,
                    AbsoluteDirection::East,
                ),
                context.west == city.board.spec_context_side(
                    city.car_out_intersection.0 as int,
                    city.car_out_intersection.1 as int,
                    AbsoluteDirection::West,
                ),
                forall|t: int|
                    0 <= t < di ==> spawn_side_available(
                        city,
                        availability.spec_get(#[trigger] directions@[t])@,
                        directions@[t],
                    ),
            decreases 4 - di,
        {
            let d = directions[di];
            let lanes_len: usize = match context.get(d) {
                Some(rid) => {
                    let road = match city.board.get_road(d.axis_direction(), *rid) {
                        Some(Some(road)) => road,
                        _ => {
                            proof {
                                assert(false);
                            }
                            return ProcessLocalState {
                                board: empty_board,
                                car_out_intersection_lane_out_availability: availability,
                            };
                        },
                    };
                    let out_ld = LaneDirection::absolute_in_out_to_lane(d, InOutDirection::Out);
                    road.lanes_to_direction(out_ld).len()
                },
                None => 0,
            };
            let mut flags: Vec<bool> = Vec::new();
            let mut t: usize = 0;
            while t < lanes_len
                invariant
                    t <= lanes_len,
                    flags.len() == t,
                    forall|u: int| 0 <= u < t ==> flags[u],
                decreases lanes_len - t,
            {
                flags.push(true);
                t = t + 1;
            }
            availability.set(d, flags);
            di = di + 1;
            proof {
                assert(directions@[di - 1] == d);
                assert forall|u: int|
                    0 <= u < di implies spawn_side_available(
                    city,
                    availability.spec_get(#[trigger] directions@[u])@,
                    directions@[u],
                ) by {
                    if directions@[u] != d {
                    }
                }
            }
        }
        let r = ProcessLocalState {
            board: empty_board,
            car_out_intersection_lane_out_availability: availability,
        };
        proof {
            assert forall|a: AxisDirection, idx: RoadIndex|
                #[trigger] city.board.road_in_bounds(a, idx) implies (match (
                city.board.spec_road(a, idx),
                r.board.spec_road(a, idx),
            ) {
                (Some(road), Some(snap)) => {
                    &&& snap.lane_to_high.len() == road.lane_to_high.len()
                    &&& snap.lane_to_low.len() == road.lane_to_low.len()
                },
                (None, None) => true,
                _ => false,
            }) by {
                let roads = city.board.spec_roads(a);
                crate::util::matrix::lemma_row_major_offset(
                    idx.0 as int,
                    idx.1 as int,
                    roads.spec_m() as int,
                    roads.spec_n() as int,
                );
            }
            assert forall|cars: Seq<Option<stateful::Car>>|
                #[trigger] r.reflects_prefix(city, cars, 0) by {
                assert forall|a: AxisDirection, idx: RoadIndex, ld: LaneDirection, li: int|
                    #[trigger] lane_exists(city, a, idx, ld, li) implies lane_reflects(
                    r.lane_entries(a, idx, ld, li),
                    cars,
                    0,
                    a,
                    idx,
                    ld,
                    li,
                ) by {
                    let roads = city.board.spec_roads(a);
                    crate::util::matrix::lemma_row_major_offset(
                        idx.0 as int,
                        idx.1 as int,
                        roads.spec_m() as int,
                        roads.spec_n() as int,
                    );
                    assert(r.lane_entries(a, idx, ld, li).len() == 0);
                }
            }
        }
        r
    }
}

/// The availability vector for one side of the entry intersection is all
/// true, with one flag per outgoing lane there.
pub open spec fn spawn_side_available(
    city: &stateless::City,
    avail: Seq<bool>,
    d: AbsoluteDirection,
) -> bool {
    let side = city.board.spec_context_side(
        city.car_out_intersection.0 as int,
        city.car_out_intersection.1 as int,
        d,
    );
    match side {
        Some(rid) => {
            let road = city.board.spec_road(
                crate::model::common::spec_axis_direction(d),
                rid,
            )->Some_0;
            let out_ld = crate::model::common::spec_absolute_in_out_to_lane(
                d,
                InOutDirection::Out,
            );
            avail.len() == road.spec_lanes(out_ld).len() && forall|li: int|
                0 <= li < avail.len() ==> avail[li]
        },
        None => avail.len() == 0,
    }
}


impl ProcessLocalState {
    /// Record one vehicle on one lane, keeping the lane's entries sorted
    /// by position.  Every other lane and the availability flags are
    /// untouched.
    pub fn insert_car(
        &mut self,
        city: &stateless::City,
        road_direction: AxisDirection,
        road_index: RoadIndex,
        lane_direction: LaneDirection,
        lane_index: LaneIndex,
        position: i64,
        car_index: CarIndex,
    )
        requires
            city.wf_geometry(),
            old(self).matches_city(city),
            lane_exists(city, road_direction, road_index, lane_direction, lane_index as int),
            sorted_by_position(
                old(self).lane_entries(
                    road_direction,
                    road_index,
                    lane_direction,
                    lane_index as int,
                ),
            ),
        ensures
            final(self).matches_city(city),
            final(self).car_out_intersection_lane_out_availability == old(
                self,
            ).car_out_intersection_lane_out_availability,
            forall|a: AxisDirection, idx: RoadIndex, ld: LaneDirection, li: int|
                #[trigger] lane_exists(city, a, idx, ld, li) && !(a == road_direction && idx
                    == road_index && ld == lane_direction && li == lane_index as int)
                    ==> final(self).lane_entries(a, idx, ld, li) == old(self).lane_entries(
                    a,
                    idx,
                    ld,
                    li,
                ),
            exists|k: int| #[trigger] inserted_at(
                old(self).lane_entries(road_direction, road_index, lane_direction, lane_index as int),
                final(self).lane_entries(road_direction, road_index, lane_direction, lane_index as int),
                k,
                position,
                car_index,
            ),
            sorted_by_position(
                final(self).lane_entries(
                    road_direction,
                    road_index,
                    lane_direction,
                    lane_index as int,
                ),
            ),
    {
        let roads = match road_direction {
            AxisDirection::Horizontal => &mut self.board.horizontal_roads,
            AxisDirection::Vertical => &mut self.board.vertical_roads,
        };
        let (i, j) = road_index;
        let (_m, n) = roads.shape;
        proof {
            crate::util::matrix::lemma_row_major_offset(
                i as int,
                j as int,
                roads.shape.0 as int,
                n as int,
            );
        }
        let o = i * n + j;
        let ghost mut ins_k: int = 0;
        let slot = &mut roads.storage[o];
        match slot {
            Some(snap) => {
                let lanes = match lane_direction {
                    LaneDirection::HighToLow => &mut snap.lane_to_low,
                    LaneDirection::LowToHigh => &mut snap.lane_to_high,
                };
                let lane = &mut lanes[lane_index];
                let mut k: usize = 0;
                while k < lane.cars.len() && lane.cars[k].0 <= position
                    invariant
                        k <= lane.cars.len(),
                        forall|t: int| 0 <= t < k ==> lane.cars@[t].0 <= position,
                    decreases lane.cars.len() - k,
                {
                    k = k + 1;
                }
                proof {
                    if k < lane.cars@.len() {
                        assert(position < lane.cars@[k as int].0);
                    }
                    ins_k = k as int;
                }
                lane.cars.insert(k, (position, car_index));
            },
            None => {
                proof {
                    assert(false);
                }
            },
        }
        proof {
            assert forall|a: AxisDirection, idx: RoadIndex, ld: LaneDirection, li: int|
                #[trigger] lane_exists(city, a, idx, ld, li) && !(a == road_direction && idx
                    == road_index && ld == lane_direction && li == lane_index as int) implies self
                .lane_entries(a, idx, ld, li) == old(self).lane_entries(a, idx, ld, li) by {
                let roads2 = city.board.spec_roads(a);
                crate::util::matrix::lemma_row_major_offset(
                    idx.0 as int,
                    idx.1 as int,
                    roads2.spec_m() as int,
                    roads2.spec_n() as int,
                );
                if a == road_direction && idx != road_index {
                    if idx.0 * roads2.spec_n() + idx.1 == i * roads2.spec_n() + j {
                        crate::util::matrix::lemma_row_major_injective(
                            idx.0 as int,
                            idx.1 as int,
                            i as int,
                            j as int,
                            roads2.spec_n() as int,
                        );
                    }
                }
            }
            assert forall|a: AxisDirection, idx: RoadIndex|
                #[trigger] city.board.road_in_bounds(a, idx) implies (match (
                city.board.spec_road(a, idx),
                self.board.spec_road(a, idx),
            ) {
                (Some(road), Some(snap)) => {
                    &&& snap.lane_to_high.len() == road.lane_to_high.len()
                    &&& snap.lane_to_low.len() == road.lane_to_low.len()
                },
                (None, None) => true,
                _ => false,
            }) by {
                let roads2 = city.board.spec_roads(a);
                crate::util::matrix::lemma_row_major_offset(
                    idx.0 as int,
                    idx.1 as int,
                    roads2.spec_m() as int,
                    roads2.spec_n() as int,
                );
                if a == road_direction && idx != road_index {
                    if idx.0 * roads2.spec_n() + idx.1 == i * roads2.spec_n() + j {
                        crate::util::matrix::lemma_row_major_injective(
                            idx.0 as int,
                            idx.1 as int,
                            i as int,
                            j as int,
                            roads2.spec_n() as int,
                        );
                    }
                }
            }
            let entries = old(self).lane_entries(
                road_direction,
                road_index,
                lane_direction,
                lane_index as int,
            );
            let new_entries = self.lane_entries(
                road_direction,
                road_index,
                lane_direction,
                lane_index as int,
            );
            let k = ins_k;
            assert(inserted_at(entries, new_entries, k, position, car_index));
            assert(sorted_by_position(new_entries)) by {
                assert forall|x: int, y: int|
                    0 <= x < y < new_entries.len() implies new_entries[x].0
                    <= new_entries[y].0 by {
                    if x < k && y < k {
                    } else if x < k && y == k {
                    } else if x < k && y > k {
                    } else if x == k {
                        assert(new_entries[y] == entries[y - 1]);
                    } else {
                        assert(new_entries[x] == entries[x - 1] && new_entries[y] == entries[y
                            - 1]);
                    }
                }
            }
        }
    }
}


/// Whether the vehicle in `slot` blocks spawn lane `li` on side `d`.
fn check_blocks(
    city: &stateless::City,
    context: &crate::model::board::IntersectionContext,
    slot: &Option<stateful::Car>,
    d: AbsoluteDirection,
    li: usize,
) -> (r: bool)
    requires
        city.wf_geometry(),
        context.spec_get(d) == city.board.spec_context_side(
            city.car_out_intersection.0 as int,
            city.car_out_intersection.1 as int,
            d,
        ),
    ensures
        r == blocks_spawn_lane(city, *slot, d, li as int),
{
    let car = match slot {
        Some(car) => car,
        None => {
            return false;
        },
    };
    match &car.location {
        stateful::Location::OnLane {
            road_direction,
            road_index,
            lane_direction,
            lane_index,
            position,
            ..
        } => {
            match context.get(d) {
                Some(rid) => {
                    let out_ld = LaneDirection::absolute_in_out_to_lane(d, InOutDirection::Out);
                    *road_direction == d.axis_direction() && road_index.0 == rid.0
                        && road_index.1 == rid.1 && *lane_direction == out_ld && *lane_index == li
                        && *position < city.car_out_min_distance
                },
                None => false,
            }
        },
        stateful::Location::InIntersection {
            intersection_index,
            to_direction,
            to_lane_index,
            ..
        } => {
            let (oi, oj) = city.car_out_intersection;
            intersection_index.0 == oi && intersection_index.1 == oj && *to_direction == d
                && *to_lane_index == li
        },
        _ => false,
    }
}

/// Whether any vehicle blocks spawn lane `li` on side `d`.
fn scan_blocked(
    city: &stateless::City,
    context: &crate::model::board::IntersectionContext,
    cars: &Vec<Option<stateful::Car>>,
    d: AbsoluteDirection,
    li: usize,
) -> (r: bool)
    requires
        city.wf_geometry(),
        context.spec_get(d) == city.board.spec_context_side(
            city.car_out_intersection.0 as int,
            city.car_out_intersection.1 as int,
            d,
        ),
    ensures
        r == spawn_lane_blocked(city, cars@, d, li as int),
{
    let mut i: usize = 0;
    while i < cars.len()
        invariant
            i <= cars.len(),
            city.wf_geometry(),
            context.spec_get(d) == city.board.spec_context_side(
                city.car_out_intersection.0 as int,
                city.car_out_intersection.1 as int,
                d,
            ),
            !spawn_lane_blocked_prefix(city, cars@, i as int, d, li as int),
        decreases cars.len() - i,
    {
        if check_blocks(city, context, &cars[i], d, li) {
            return true;
        }
        i = i + 1;
    }
    false
}

impl ProcessLocalState {
    /// Build the snapshot for one tick: every lane's sorted occupant list
    /// and the exact spawn-lane availability, derived from the current
    /// global vehicle list.
    pub fn generate(
        city: &stateless::City,
        stateful_cars: &Vec<Option<stateful::Car>>,
        _stateless_cars: &Vec<stateless::Car>,
    ) -> (r: ProcessLocalState)
        requires
            city.wf_geometry(),
            city.wf_roads(),
            forall|i: int|
                0 <= i < stateful_cars.len() ==> (match #[trigger] stateful_cars[i] {
                    Some(car) => crate::model::wf_car_placed(city, car),
                    None => true,
                }),
        ensures
            r.matches_city(city),
            r.reflects(city, stateful_cars@),
            r.reflects_availability(city, stateful_cars@),
    {
        let mut ls = Self::empty(city);
        proof {
            assert(ls.reflects_prefix(city, stateful_cars@, 0));
        }
        let cars_len = stateful_cars.len();
        let mut i: usize = 0;
        while i < cars_len
            invariant
                i <= cars_len == stateful_cars.len(),
                city.wf_geometry(),
                city.wf_roads(),
                forall|t: int|
                    0 <= t < stateful_cars.len() ==> (match #[trigger] stateful_cars[t] {
                        Some(car) => crate::model::wf_car_placed(city, car),
                        None => true,
                    }),
                ls.matches_city(city),
                ls.reflects_prefix(city, stateful_cars@, i as int),
            decreases cars_len - i,
        {
            let ghost ls_before = ls;
            match &stateful_cars[i] {
                Some(car) => match &car.location {
                    stateful::Location::OnLane {
                        road_direction,
                        road_index,
                        lane_direction,
                        lane_index,
                        position,
                        ..
                    } => {
                        proof {
                            assert(crate::model::wf_car_placed(
                                city,
                                stateful_cars[i as int]->Some_0,
                            ));
                            assert(lane_exists(
                                city,
                                *road_direction,
                                *road_index,
                                *lane_direction,
                                *lane_index as int,
                            ));
                        }
                        ls.insert_car(
                            city,
                            *road_direction,
                            *road_index,
                            *lane_direction,
                            *lane_index,
                            *position,
                            i,
                        );
                        proof {
                            let kk = choose|k: int| #[trigger] inserted_at(
                                ls_before.lane_entries(
                                    *road_direction,
                                    *road_index,
                                    *lane_direction,
                                    *lane_index as int,
                                ),
                                ls.lane_entries(
                                    *road_direction,
                                    *road_index,
                                    *lane_direction,
                                    *lane_index as int,
                                ),
                                k,
                                *position,
                                i,
                            );
                            lemma_step_reflects_on_lane(
                                ls_before,
                                ls,
                                city,
                                stateful_cars@,
                                i as int,
                                kk,
                            );
                        }
                    },
                    stateful::Location::InIntersection { .. } => {
                        proof {
                            lemma_step_reflects_no_lane(
                                ls,
                                city,
                                stateful_cars@,
                                i as int,
                            );
                        }
                    },
                    stateful::Location::ChangingLane {
                        road_direction,
                        road_index,
                        lane_direction,
                        from_lane_index,
                        to_lane_index,
                        position,
                        ..
                    } => {
                        proof {
                            assert(crate::model::wf_car_placed(
                                city,
                                stateful_cars[i as int]->Some_0,
                            ));
                            assert(lane_exists(
                                city,
                                *road_direction,
                                *road_index,
                                *lane_direction,
                                *from_lane_index as int,
                            ));
                            assert(lane_exists(
                                city,
                                *road_direction,
                                *road_index,
                                *lane_direction,
                                *to_lane_index as int,
                            ));
                        }
                        ls.insert_car(
                            city,
                            *road_direction,
                            *road_index,
                            *lane_direction,
                            *from_lane_index,
                            *position,
                            i,
                        );
                        let ghost ls_mid = ls;
                        ls.insert_car(
                            city,
                            *road_direction,
                            *road_index,
                            *lane_direction,
                            *to_lane_index,
                            *position,
                            i,
                        );
                        proof {
                            let ka = choose|k: int| #[trigger] inserted_at(
                                ls_before.lane_entries(
                                    *road_direction,
                                    *road_index,
                                    *lane_direction,
                                    *from_lane_index as int,
                                ),
                                ls_mid.lane_entries(
                                    *road_direction,
                                    *road_index,
                                    *lane_direction,
                                    *from_lane_index as int,
                                ),
                                k,
                                *position,
                                i,
                            );
                            let kb = choose|k: int| #[trigger] inserted_at(
                                ls_mid.lane_entries(
                                    *road_direction,
                                    *road_index,
                                    *lane_direction,
                                    *to_lane_index as int,
                                ),
                                ls.lane_entries(
                                    *road_direction,
                                    *road_index,
                                    *lane_direction,
                                    *to_lane_index as int,
                                ),
                                k,
                                *position,
                                i,
                            );
                            lemma_step_reflects_changing(
                                ls_before,
                                ls_mid,
                                ls,
                                city,
                                stateful_cars@,
                                i as int,
                                ka,
                                kb,
                            );
                        }
                    },
                },
                None => {
                    proof {
                        lemma_step_reflects_no_lane(ls, city, stateful_cars@, i as int);
                    }
                },
            }
            i = i + 1;
        }
        // Second pass: derive the spawn-lane availability flags.
        let context = city.board.context_of_intersection(city.car_out_intersection);
        let directions = AbsoluteDirection::directions();
        let mut di: usize = 0;
        while di < 4
            invariant
                di <= 4,
                city.wf_geometry(),
                city.wf_roads(),
                directions@ == seq![
                    AbsoluteDirection::North,
                    AbsoluteDirection::South,
                    AbsoluteDirection::East,
                    AbsoluteDirection::West,
                ],
                context.north == city.board.spec_context_side(
                    city.car_out_intersection.0 as int,
                    city.car_out_intersection.1 as int,
                    AbsoluteDirection::North,
                ),
                context.south == city.board.spec_context_side(
                    city.car_out_intersection.0 as int,
                    city.car_out_intersection.1 as int,
                    AbsoluteDirection::South,
                ),
                context.east == city.board.spec_context_side(
                    city.car_out_intersection.0 as int,
                    city.car_out_intersection.1 as int,
                    AbsoluteDirection::East,
                ),
                context.west == city.board.spec_context_side(
                    city.car_out_intersection.0 as int,
                    city.car_out_intersection.1 as int,
                    AbsoluteDirection::West,
                ),
                ls.matches_city(city),
                ls.reflects_prefix(city, stateful_cars@, stateful_cars.len() as int),
                forall|t: int|
                    0 <= t < di ==> side_availability_exact(
                        city,
                        stateful_cars@,
                        ls.car_out_intersection_lane_out_availability.spec_get(
                            #[trigger] directions@[t],
                        )@,
                        directions@[t],
                    ),
            decreases 4 - di,
        {
            let d = directions[di];
            let lanes_len: usize = match context.get(d) {
                Some(rid) => {
                    let road = match city.board.get_road(d.axis_direction(), *rid) {
                        Some(Some(road)) => road,
                        _ => {
                            proof {
                                assert(false);
                            }
                            return ls;
                        },
                    };
                    let out_ld = LaneDirection::absolute_in_out_to_lane(d, InOutDirection::Out);
                    road.lanes_to_direction(out_ld).len()
                },
                None => 0,
            };
            let mut flags: Vec<bool> = Vec::new();
            let mut li: usize = 0;
            while li < lanes_len
                invariant
                    li <= lanes_len,
                    city.wf_geometry(),
                    context.spec_get(d) == city.board.spec_context_side(
                        city.car_out_intersection.0 as int,
                        city.car_out_intersection.1 as int,
                        d,
                    ),
                    flags.len() == li,
                    forall|u: int|
                        0 <= u < li ==> (flags[u] <==> !spawn_lane_blocked(
                            city,
                            stateful_cars@,
                            d,
                            u,
                        )),
                decreases lanes_len - li,
            {
                let blocked = scan_blocked(city, &context, stateful_cars, d, li);
                flags.push(!blocked);
                li = li + 1;
            }
            let ghost before = ls.car_out_intersection_lane_out_availability;
            set_availability(&mut ls, d, flags);
            di = di + 1;
            proof {
                assert(directions@[di - 1] == d);
            }
        }
        ls
    }
}

/// Replace the availability vector for one side, leaving everything else
/// unchanged.
fn set_availability(ls: &mut ProcessLocalState, d: AbsoluteDirection, flags: Vec<bool>)
    ensures
        final(ls).board == old(ls).board,
        final(ls).car_out_intersection_lane_out_availability.spec_get(d) == flags,
        forall|d2: AbsoluteDirection|
            d2 != d ==> final(ls).car_out_intersection_lane_out_availability.spec_get(d2) == old(
                ls,
            ).car_out_intersection_lane_out_availability.spec_get(d2),
{
    ls.car_out_intersection_lane_out_availability.set(d, flags);
}

/// One side's availability flags are exact for the whole vehicle list.
pub open spec fn side_availability_exact(
    city: &stateless::City,
    cars: Seq<Option<stateful::Car>>,
    avail: Seq<bool>,
    d: AbsoluteDirection,
) -> bool {
    let side = city.board.spec_context_side(
        city.car_out_intersection.0 as int,
        city.car_out_intersection.1 as int,
        d,
    );
    match side {
        Some(rid) => {
            let road = city.board.spec_road(
                crate::model::common::spec_axis_direction(d),
                rid,
            )->Some_0;
            let out_ld = crate::model::common::spec_absolute_in_out_to_lane(
                d,
                InOutDirection::Out,
            );
            &&& avail.len() == road.spec_lanes(out_ld).len()
            &&& forall|li: int|
                0 <= li < avail.len() ==> (avail[li] <==> !spawn_lane_blocked(city, cars, d, li))
        },
        None => avail.len() == 0,
    }
}

/// Extending the scanned prefix past a vehicle that occupies no lane
/// keeps the lane lists exact.
proof fn lemma_step_reflects_no_lane(
    ls: ProcessLocalState,
    city: &stateless::City,
    cars: Seq<Option<stateful::Car>>,
    i: int,
)
    requires
        0 <= i < cars.len(),
        i <= usize::MAX,
        ls.reflects_prefix(city, cars, i),
        match cars[i] {
            Some(car) => car.location is InIntersection,
            None => true,
        },
    ensures
        ls.reflects_prefix(city, cars, i + 1),
{
    assert forall|a: AxisDirection, idx: RoadIndex, ld: LaneDirection, li: int|
        #[trigger] lane_exists(city, a, idx, ld, li) implies lane_reflects(
        ls.lane_entries(a, idx, ld, li),
        cars,
        i + 1,
        a,
        idx,
        ld,
        li,
    ) by {
        assert(lane_reflects(ls.lane_entries(a, idx, ld, li), cars, i, a, idx, ld, li));
        assert(!occupies(cars, i, a, idx, ld, li));
    }
}

/// Extending the scanned prefix past an on-lane vehicle that was just
/// inserted into its lane keeps the lane lists exact.
proof fn lemma_step_reflects_on_lane(
    before: ProcessLocalState,
    after: ProcessLocalState,
    city: &stateless::City,
    cars: Seq<Option<stateful::Car>>,
    i: int,
    k: int,
)
    requires
        0 <= i < cars.len(),
        i <= usize::MAX,
        before.reflects_prefix(city, cars, i),
        cars[i] is Some,
        (cars[i]->Some_0).location is OnLane,
        crate::model::wf_car_placed(city, cars[i]->Some_0),
        ({
            let car = cars[i]->Some_0;
            match car.location {
                stateful::Location::OnLane {
                    road_direction,
                    road_index,
                    lane_direction,
                    lane_index,
                    position,
                    ..
                } => {
                    &&& forall|a: AxisDirection, idx: RoadIndex, ld: LaneDirection, li: int|
                        #[trigger] lane_exists(city, a, idx, ld, li) && !(a == road_direction
                            && idx == road_index && ld == lane_direction && li
                            == lane_index as int) ==> after.lane_entries(a, idx, ld, li)
                            == before.lane_entries(a, idx, ld, li)
                    &&& inserted_at(
                        before.lane_entries(
                            road_direction,
                            road_index,
                            lane_direction,
                            lane_index as int,
                        ),
                        after.lane_entries(
                            road_direction,
                            road_index,
                            lane_direction,
                            lane_index as int,
                        ),
                        k,
                        position,
                        i as usize,
                    )
                    &&& sorted_by_position(
                        after.lane_entries(
                            road_direction,
                            road_index,
                            lane_direction,
                            lane_index as int,
                        ),
                    )
                },
                _ => false,
            }
        }),
    ensures
        after.reflects_prefix(city, cars, i + 1),
{
    let car = cars[i]->Some_0;
    match car.location {
        stateful::Location::OnLane {
            road_direction,
            road_index,
            lane_direction,
            lane_index,
            position,
            ..
        } => {
            let old_target = before.lane_entries(
                road_direction,
                road_index,
                lane_direction,
                lane_index as int,
            );
            let new_target = after.lane_entries(
                road_direction,
                road_index,
                lane_direction,
                lane_index as int,
            );
            assert(inserted_at(old_target, new_target, k, position, i as usize));
            assert forall|a: AxisDirection, idx: RoadIndex, ld: LaneDirection, li: int|
                #[trigger] lane_exists(city, a, idx, ld, li) implies {
                let entries = after.lane_entries(a, idx, ld, li);
                &&& sorted_by_position(entries)
                &&& forall|t: int|
                    0 <= t < entries.len() ==> (#[trigger] entries[t]).1 < i + 1 && occupies(
                        cars,
                        entries[t].1 as int,
                        a,
                        idx,
                        ld,
                        li,
                    ) && entries[t].0 == lane_position(cars, entries[t].1 as int)
                &&& forall|ci: int|
                    0 <= ci < i + 1 && occupies(cars, ci, a, idx, ld, li)
                        ==> #[trigger] entries.contains((lane_position(cars, ci), ci as usize))
            } by {
                let entries = after.lane_entries(a, idx, ld, li);
                if a == road_direction && idx == road_index && ld == lane_direction && li
                    == lane_index as int {
                    assert(lane_exists(city, a, idx, ld, li));
                    assert(old_target == before.lane_entries(a, idx, ld, li));
                    assert(forall|t2: int|
                        0 <= t2 < old_target.len() ==> (#[trigger] old_target[t2]).1 < i
                            && occupies(cars, old_target[t2].1 as int, a, idx, ld, li)
                            && old_target[t2].0 == lane_position(cars, old_target[t2].1 as int));
                    assert(entries == old_target.insert(k, (position, i as usize)));
                    assert forall|t: int|
                        0 <= t < entries.len() implies (#[trigger] entries[t]).1 < i + 1
                        && occupies(cars, entries[t].1 as int, a, idx, ld, li) && entries[t].0
                        == lane_position(cars, entries[t].1 as int) by {
                        assert(lane_exists(city, a, idx, ld, li));
                        if t < k {
                            assert(entries[t] == old_target[t]);
                            assert(old_target[t].1 < i && occupies(
                                cars,
                                old_target[t].1 as int,
                                a,
                                idx,
                                ld,
                                li,
                            ) && old_target[t].0 == lane_position(cars, old_target[t].1 as int));
                        } else if t == k {
                            assert(entries[t] == (position, i as usize));
                            assert(occupies(cars, i, a, idx, ld, li));
                        } else {
                            assert(entries[t] == old_target[t - 1]);
                            assert(old_target[t - 1].1 < i && occupies(
                                cars,
                                old_target[t - 1].1 as int,
                                a,
                                idx,
                                ld,
                                li,
                            ) && old_target[t - 1].0 == lane_position(
                                cars,
                                old_target[t - 1].1 as int,
                            ));
                        }
                    }
                    assert forall|ci: int|
                        0 <= ci < i + 1 && occupies(cars, ci, a, idx, ld, li)
                            implies #[trigger] entries.contains(
                        (lane_position(cars, ci), ci as usize),
                    ) by {
                        if ci < i {
                            lemma_insert_preserves_contains(
                                old_target,
                                k,
                                (position, i as usize),
                                (lane_position(cars, ci), ci as usize),
                            );
                        } else {
                            assert(entries[k] == (position, i as usize));
                        }
                    }
                } else {
                    assert(entries == before.lane_entries(a, idx, ld, li));
                    assert(!occupies(cars, i, a, idx, ld, li));
                    assert forall|ci: int|
                        0 <= ci < i + 1 && occupies(cars, ci, a, idx, ld, li)
                            implies #[trigger] entries.contains(
                        (lane_position(cars, ci), ci as usize),
                    ) by {
                        assert(ci < i);
                    }
                }
            }
        },
        _ => {
            assert(false);
        },
    }
}


/// Inserting a fresh occupant's entry into an exact lane list keeps it
/// exact for one more vehicle slot.
proof fn lemma_lane_reflects_insert_one(
    entries: Seq<(i64, CarIndex)>,
    new_entries: Seq<(i64, CarIndex)>,
    kk: int,
    position: i64,
    cars: Seq<Option<stateful::Car>>,
    i: int,
    a: AxisDirection,
    idx: RoadIndex,
    ld: LaneDirection,
    li: int,
)
    requires
        0 <= i < cars.len(),
        i <= usize::MAX,
        lane_reflects(entries, cars, i, a, idx, ld, li),
        inserted_at(entries, new_entries, kk, position, i as usize),
        occupies(cars, i, a, idx, ld, li),
        position == lane_position(cars, i),
        !changing_here_twice(cars, i, a, idx, ld, li) || !entries.contains(
            (position, i as usize),
        ),
    ensures
        lane_reflects(new_entries, cars, i + 1, a, idx, ld, li),
        sorted_by_position(new_entries),
{
    assert forall|t: int|
        0 <= t < new_entries.len() implies (#[trigger] new_entries[t]).1 < i + 1 && occupies(
        cars,
        new_entries[t].1 as int,
        a,
        idx,
        ld,
        li,
    ) && new_entries[t].0 == lane_position(cars, new_entries[t].1 as int) by {
        if t < kk {
            assert(new_entries[t] == entries[t]);
        } else if t == kk {
            assert(new_entries[t] == (position, i as usize));
        } else {
            assert(new_entries[t] == entries[t - 1]);
        }
    }
    assert forall|ci: int|
        0 <= ci < i + 1 && occupies(cars, ci, a, idx, ld, li)
            implies #[trigger] new_entries.contains((lane_position(cars, ci), ci as usize)) by {
        if ci < i {
            lemma_insert_preserves_contains(
                entries,
                kk,
                (position, i as usize),
                (lane_position(cars, ci), ci as usize),
            );
        } else {
            assert(new_entries[kk] == (position, i as usize));
        }
    }
    assert forall|k1: int, k2: int|
        0 <= k1 < k2 < new_entries.len() && (#[trigger] new_entries[k1]).1 == (
        #[trigger] new_entries[k2]).1 implies changing_here_twice(
        cars,
        new_entries[k1].1 as int,
        a,
        idx,
        ld,
        li,
    ) by {
        if k1 != kk && k2 != kk {
            let o1 = if k1 < kk {
                k1
            } else {
                k1 - 1
            };
            let o2 = if k2 < kk {
                k2
            } else {
                k2 - 1
            };
            assert(new_entries[k1] == entries[o1] && new_entries[k2] == entries[o2]);
            assert(o1 < o2);
        } else {
            let other = if k1 == kk {
                k2
            } else {
                k1
            };
            let oo = if other < kk {
                other
            } else {
                other - 1
            };
            assert(new_entries[other] == entries[oo]);
            assert(entries[oo].1 < i);
            assert(new_entries[kk].1 == i);
            assert(false);
        }
    }
    assert forall|k1: int, k2: int, k3: int|
        0 <= k1 < k2 < k3 < new_entries.len() implies !((#[trigger] new_entries[k1]).1 == (
        #[trigger] new_entries[k2]).1 && new_entries[k2].1 == (#[trigger] new_entries[k3]).1) by {
        if new_entries[k1].1 == new_entries[k2].1 && new_entries[k2].1 == new_entries[k3].1 {
            if k1 != kk && k2 != kk && k3 != kk {
                let o1 = if k1 < kk {
                    k1
                } else {
                    k1 - 1
                };
                let o2 = if k2 < kk {
                    k2
                } else {
                    k2 - 1
                };
                let o3 = if k3 < kk {
                    k3
                } else {
                    k3 - 1
                };
                assert(new_entries[k1] == entries[o1] && new_entries[k2] == entries[o2]
                    && new_entries[k3] == entries[o3]);
                assert(o1 < o2 < o3);
            } else {
                assert(new_entries[kk].1 == i);
                let oa = if k1 == kk {
                    k2
                } else {
                    k1
                };
                let ooa = if oa < kk {
                    oa
                } else {
                    oa - 1
                };
                assert(new_entries[oa] == entries[ooa]);
                assert(entries[ooa].1 < i);
                assert(false);
            }
        }
    }
}

/// Inserting both role entries of a vehicle changing lanes within one
/// lane keeps the lane list exact: its index appears exactly twice.
proof fn lemma_lane_reflects_insert_twice(
    entries: Seq<(i64, CarIndex)>,
    mid: Seq<(i64, CarIndex)>,
    new_entries: Seq<(i64, CarIndex)>,
    ka: int,
    kb: int,
    position: i64,
    cars: Seq<Option<stateful::Car>>,
    i: int,
    a: AxisDirection,
    idx: RoadIndex,
    ld: LaneDirection,
    li: int,
)
    requires
        0 <= i < cars.len(),
        i <= usize::MAX,
        lane_reflects(entries, cars, i, a, idx, ld, li),
        inserted_at(entries, mid, ka, position, i as usize),
        inserted_at(mid, new_entries, kb, position, i as usize),
        occupies(cars, i, a, idx, ld, li),
        changing_here_twice(cars, i, a, idx, ld, li),
        position == lane_position(cars, i),
    ensures
        lane_reflects(new_entries, cars, i + 1, a, idx, ld, li),
        sorted_by_position(new_entries),
{
    let pa = if ka < kb {
        ka
    } else {
        ka + 1
    };
    assert(new_entries[kb] == (position, i as usize));
    assert(new_entries[pa] == (position, i as usize)) by {
        if ka < kb {
            assert(new_entries[ka] == mid[ka]);
            assert(mid[ka] == (position, i as usize));
        } else {
            assert(new_entries[ka + 1] == mid[ka]);
            assert(mid[ka] == (position, i as usize));
        }
    }
    // Every slot other than the two inserted ones carries an old entry.
    assert forall|k: int|
        0 <= k < new_entries.len() && k != kb && k != pa implies (#[trigger] new_entries[k]).1
            < i && occupies(cars, new_entries[k].1 as int, a, idx, ld, li) && new_entries[k].0
            == lane_position(cars, new_entries[k].1 as int) by {
        let m = if k < kb {
            k
        } else {
            k - 1
        };
        assert(new_entries[k] == mid[m]);
        assert(m != ka);
        let o = if m < ka {
            m
        } else {
            m - 1
        };
        assert(mid[m] == entries[o]);
    }
    assert forall|t: int|
        0 <= t < new_entries.len() implies (#[trigger] new_entries[t]).1 < i + 1 && occupies(
        cars,
        new_entries[t].1 as int,
        a,
        idx,
        ld,
        li,
    ) && new_entries[t].0 == lane_position(cars, new_entries[t].1 as int) by {
        if t == kb || t == pa {
            assert(new_entries[t] == (position, i as usize));
        }
    }
    assert forall|ci: int|
        0 <= ci < i + 1 && occupies(cars, ci, a, idx, ld, li)
            implies #[trigger] new_entries.contains((lane_position(cars, ci), ci as usize)) by {
        if ci < i {
            lemma_insert_preserves_contains(
                entries,
                ka,
                (position, i as usize),
                (lane_position(cars, ci), ci as usize),
            );
            lemma_insert_preserves_contains(
                mid,
                kb,
                (position, i as usize),
                (lane_position(cars, ci), ci as usize),
            );
        } else {
            assert(new_entries[kb] == (position, i as usize));
        }
    }
    assert forall|k1: int, k2: int|
        0 <= k1 < k2 < new_entries.len() && (#[trigger] new_entries[k1]).1 == (
        #[trigger] new_entries[k2]).1 implies changing_here_twice(
        cars,
        new_entries[k1].1 as int,
        a,
        idx,
        ld,
        li,
    ) by {
        if (k1 == kb || k1 == pa) && (k2 == kb || k2 == pa) {
            assert(new_entries[k1].1 == i);
        } else if k1 != kb && k1 != pa && k2 != kb && k2 != pa {
        } else {
            assert(false);
        }
    }
    assert forall|k1: int, k2: int, k3: int|
        0 <= k1 < k2 < k3 < new_entries.len() implies !((#[trigger] new_entries[k1]).1 == (
        #[trigger] new_entries[k2]).1 && new_entries[k2].1 == (#[trigger] new_entries[k3]).1) by {
        if new_entries[k1].1 == new_entries[k2].1 && new_entries[k2].1 == new_entries[k3].1 {
            if new_entries[k1].1 == i {
                assert(k1 == kb || k1 == pa);
                assert(k2 == kb || k2 == pa);
                assert(k3 == kb || k3 == pa);
                assert(false);
            } else {
                assert(k1 != kb && k1 != pa && k2 != kb && k2 != pa && k3 != kb && k3 != pa);
            }
        }
    }
}


/// Extending the scanned prefix past a mid-lane-change vehicle whose
/// entry was just inserted into both its lanes keeps the lane lists
/// exact.
proof fn lemma_step_reflects_changing(
    before: ProcessLocalState,
    mid: ProcessLocalState,
    after: ProcessLocalState,
    city: &stateless::City,
    cars: Seq<Option<stateful::Car>>,
    i: int,
    ka: int,
    kb: int,
)
    requires
        0 <= i < cars.len(),
        i <= usize::MAX,
        before.reflects_prefix(city, cars, i),
        cars[i] is Some,
        (cars[i]->Some_0).location is ChangingLane,
        crate::model::wf_car_placed(city, cars[i]->Some_0),
        ({
            let car = cars[i]->Some_0;
            match car.location {
                stateful::Location::ChangingLane {
                    road_direction,
                    road_index,
                    lane_direction,
                    from_lane_index,
                    to_lane_index,
                    position,
                    ..
                } => {
                    &&& forall|a: AxisDirection, idx: RoadIndex, ld: LaneDirection, li: int|
                        #[trigger] lane_exists(city, a, idx, ld, li) && !(a == road_direction
                            && idx == road_index && ld == lane_direction && li
                            == from_lane_index as int) ==> mid.lane_entries(a, idx, ld, li)
                            == before.lane_entries(a, idx, ld, li)
                    &&& inserted_at(
                        before.lane_entries(
                            road_direction,
                            road_index,
                            lane_direction,
                            from_lane_index as int,
                        ),
                        mid.lane_entries(
                            road_direction,
                            road_index,
                            lane_direction,
                            from_lane_index as int,
                        ),
                        ka,
                        position,
                        i as usize,
                    )
                    &&& forall|a: AxisDirection, idx: RoadIndex, ld: LaneDirection, li: int|
                        #[trigger] lane_exists(city, a, idx, ld, li) && !(a == road_direction
                            && idx == road_index && ld == lane_direction && li
                            == to_lane_index as int) ==> after.lane_entries(a, idx, ld, li)
                            == mid.lane_entries(a, idx, ld, li)
                    &&& inserted_at(
                        mid.lane_entries(
                            road_direction,
                            road_index,
                            lane_direction,
                            to_lane_index as int,
                        ),
                        after.lane_entries(
                            road_direction,
                            road_index,
                            lane_direction,
                            to_lane_index as int,
                        ),
                        kb,
                        position,
                        i as usize,
                    )
                },
                _ => false,
            }
        }),
    ensures
        after.reflects_prefix(city, cars, i + 1),
{
    let car = cars[i]->Some_0;
    match car.location {
        stateful::Location::ChangingLane {
            road_direction,
            road_index,
            lane_direction,
            from_lane_index,
            to_lane_index,
            position,
            ..
        } => {
            assert forall|a: AxisDirection, idx: RoadIndex, ld: LaneDirection, li: int|
                #[trigger] lane_exists(city, a, idx, ld, li) implies lane_reflects(
                after.lane_entries(a, idx, ld, li),
                cars,
                i + 1,
                a,
                idx,
                ld,
                li,
            ) by {
                let is_from = a == road_direction && idx == road_index && ld == lane_direction
                    && li == from_lane_index as int;
                let is_to = a == road_direction && idx == road_index && ld == lane_direction
                    && li == to_lane_index as int;
                assert(lane_reflects(
                    before.lane_entries(a, idx, ld, li),
                    cars,
                    i,
                    a,
                    idx,
                    ld,
                    li,
                ));
                if is_from && is_to {
                    assert(changing_here_twice(cars, i, a, idx, ld, li));
                    lemma_lane_reflects_insert_twice(
                        before.lane_entries(a, idx, ld, li),
                        mid.lane_entries(a, idx, ld, li),
                        after.lane_entries(a, idx, ld, li),
                        ka,
                        kb,
                        position,
                        cars,
                        i,
                        a,
                        idx,
                        ld,
                        li,
                    );
                } else if is_from {
                    assert(after.lane_entries(a, idx, ld, li) == mid.lane_entries(a, idx, ld, li));
                    assert(!changing_here_twice(cars, i, a, idx, ld, li));
                    lemma_lane_reflects_insert_one(
                        before.lane_entries(a, idx, ld, li),
                        mid.lane_entries(a, idx, ld, li),
                        ka,
                        position,
                        cars,
                        i,
                        a,
                        idx,
                        ld,
                        li,
                    );
                } else if is_to {
                    assert(mid.lane_entries(a, idx, ld, li) == before.lane_entries(a, idx, ld, li));
                    assert(!changing_here_twice(cars, i, a, idx, ld, li));
                    lemma_lane_reflects_insert_one(
                        mid.lane_entries(a, idx, ld, li),
                        after.lane_entries(a, idx, ld, li),
                        kb,
                        position,
                        cars,
                        i,
                        a,
                        idx,
                        ld,
                        li,
                    );
                } else {
                    assert(after.lane_entries(a, idx, ld, li) == before.lane_entries(
                        a,
                        idx,
                        ld,
                        li,
                    ));
                    assert(!occupies(cars, i, a, idx, ld, li));
                }
            }
        },
        _ => {
            assert(false);
        },
    }
}

} // verus!
