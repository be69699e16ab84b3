//! The grid topology: a matrix of intersection slots with horizontal and
//! vertical road slots between adjacent cells.
//!
//! The road-slot matrices are exactly one cell shorter than the
//! intersection matrix along the connecting axis; neighbour lookups are
//! plain index arithmetic.

use crate::model::common::{AbsoluteDirection, Around, AxisDirection, LaneDirection};
use crate::util::matrix::{Matrix, MatrixIndex, MatrixShape};
use vstd::prelude::*;

verus! {

pub type IntersectionIndex = MatrixIndex;

pub type RoadIndex = MatrixIndex;

/// An `m x n` grid of intersection slots `I`, with an `m x (n-1)` matrix of
/// horizontal road slots and an `(m-1) x n` matrix of vertical road slots.
#[derive(Clone, Debug)]
pub struct Board<I, R> {
    pub intersections: Matrix<I>,
    pub horizontal_roads: Matrix<R>,
    pub vertical_roads: Matrix<R>,
}

impl<I, R> Board<I, R> {
    /// The shape invariant: road-slot matrices are one shorter than the
    /// intersection matrix along their connecting axis.
    pub open spec fn wf(&self) -> bool {
        &&& self.intersections.wf()
        &&& self.horizontal_roads.wf()
        &&& self.vertical_roads.wf()
        &&& self.spec_m() >= 1
        &&& self.spec_n() >= 1
        &&& self.horizontal_roads.spec_m() == self.spec_m()
        &&& self.horizontal_roads.spec_n() == self.spec_n() - 1
        &&& self.vertical_roads.spec_m() == self.spec_m() - 1
        &&& self.vertical_roads.spec_n() == self.spec_n()
    }

    pub open spec fn spec_m(&self) -> nat {
        self.intersections.spec_m()
    }

    pub open spec fn spec_n(&self) -> nat {
        self.intersections.spec_n()
    }

    /// The road matrix along one axis, as a spec-level projection.
    pub open spec fn spec_roads(&self, axis: AxisDirection) -> Matrix<R> {
        match axis {
            AxisDirection::Horizontal => self.horizontal_roads,
            AxisDirection::Vertical => self.vertical_roads,
        }
    }

    /// The road at `(axis, index)`, as a spec-level projection.
    pub open spec fn spec_road(&self, axis: AxisDirection, index: RoadIndex) -> R {
        self.spec_roads(axis).spec_at(index.0 as int, index.1 as int)
    }

    /// Whether `(axis, index)` is a road slot of the board.
    pub open spec fn road_in_bounds(&self, axis: AxisDirection, index: RoadIndex) -> bool {
        self.spec_roads(axis).in_bounds(index.0 as int, index.1 as int)
    }

    /// The shape of the intersection matrix.
    pub fn shape(&self) -> (r: MatrixShape)
        ensures
            r.0 == self.spec_m(),
            r.1 == self.spec_n(),
    {
        self.intersections.shape()
    }

    /// The road matrix along one axis.
    pub fn get_roads(&self, axis: AxisDirection) -> (r: &Matrix<R>)
        ensures
            *r == self.spec_roads(axis),
    {
        match axis {
            AxisDirection::Horizontal => &self.horizontal_roads,
            AxisDirection::Vertical => &self.vertical_roads,
        }
    }

    /// The road at `(axis, index)`, if the slot exists.
    pub fn get_road(&self, axis: AxisDirection, index: RoadIndex) -> (r: Option<&R>)
        requires
            self.wf(),
        ensures
            match r {
                Some(road) => self.road_in_bounds(axis, index) && *road == self.spec_road(
                    axis,
                    index,
                ),
                None => !self.road_in_bounds(axis, index),
            },
    {
        self.get_roads(axis).get(index)
    }

    /// Replace the road at `(axis, index)`, leaving everything else
    /// unchanged.
    pub fn set_road(&mut self, axis: AxisDirection, index: RoadIndex, road: R)
        requires
            old(self).wf(),
            old(self).road_in_bounds(axis, index),
        ensures
            final(self).wf(),
            final(self).intersections == old(self).intersections,
            final(self).spec_road(axis, index) == road,
            forall|a: AxisDirection, idx: RoadIndex|
                old(self).road_in_bounds(a, idx) && (a, idx) != (axis, index)
                    ==> #[trigger] final(self).spec_road(a, idx) == old(self).spec_road(a, idx),
            forall|a: AxisDirection| (#[trigger] final(self).spec_roads(a)).shape == old(
                self,
            ).spec_roads(a).shape,
    {
        match axis {
            AxisDirection::Horizontal => self.horizontal_roads.set(index, road),
            AxisDirection::Vertical => self.vertical_roads.set(index, road),
        }
    }

    /// Every road slot of the board as `(axis, index)`, horizontal slots in
    /// row-major order first, then vertical ones.
    pub fn roads(&self) -> (r: Vec<(AxisDirection, RoadIndex)>)
        requires
            self.wf(),
        ensures
            forall|k: int|
                0 <= k < r.len() ==> self.road_in_bounds(#[trigger] r[k].0, r[k].1),
            forall|a: AxisDirection, idx: RoadIndex|
                self.road_in_bounds(a, idx) ==> r@.contains((a, idx)),
    {
        let mut r: Vec<(AxisDirection, RoadIndex)> = Vec::new();
        let h = self.horizontal_roads.indices();
        let mut k: usize = 0;
        while k < h.len()
            invariant
                self.wf(),
                k <= h.len(),
                h.len() == self.horizontal_roads.storage.len(),
                forall|t: int|
                    0 <= t < h.len() ==> self.horizontal_roads.in_bounds(
                        #[trigger] h[t].0 as int,
                        h[t].1 as int,
                    ) && h[t].0 * self.horizontal_roads.spec_n() + h[t].1 == t,
                r.len() == k,
                forall|t: int| 0 <= t < k ==> r[t] == (AxisDirection::Horizontal, h[t]),
            decreases h.len() - k,
        {
            r.push((AxisDirection::Horizontal, h[k]));
            k = k + 1;
        }
        let v = self.vertical_roads.indices();
        let hl = r.len();
        let mut k2: usize = 0;
        while k2 < v.len()
            invariant
                self.wf(),
                k2 <= v.len(),
                v.len() == self.vertical_roads.storage.len(),
                forall|t: int|
                    0 <= t < v.len() ==> self.vertical_roads.in_bounds(
                        #[trigger] v[t].0 as int,
                        v[t].1 as int,
                    ) && v[t].0 * self.vertical_roads.spec_n() + v[t].1 == t,
                hl == h.len(),
                forall|t: int|
                    0 <= t < h.len() ==> self.horizontal_roads.in_bounds(
                        #[trigger] h[t].0 as int,
                        h[t].1 as int,
                    ) && h[t].0 * self.horizontal_roads.spec_n() + h[t].1 == t,
                r.len() == hl + k2,
                forall|t: int| 0 <= t < hl ==> r[t] == (AxisDirection::Horizontal, h[t]),
                forall|t: int| 0 <= t < k2 ==> r[hl + t] == (AxisDirection::Vertical, v[t]),
            decreases v.len() - k2,
        {
            r.push((AxisDirection::Vertical, v[k2]));
            k2 = k2 + 1;
        }
        proof {
            assert forall|k: int| 0 <= k < r.len() implies self.road_in_bounds(
                #[trigger] r[k].0,
                r[k].1,
            ) by {
                if k < hl {
                    assert(r[k] == (AxisDirection::Horizontal, h[k]));
                } else {
                    assert(r[k] == (AxisDirection::Vertical, v[k - hl]));
                }
            }
            assert forall|a: AxisDirection, idx: RoadIndex|
                self.road_in_bounds(a, idx) implies r@.contains((a, idx)) by {
                let roads = self.spec_roads(a);
                let o = idx.0 * roads.spec_n() + idx.1;
                crate::util::matrix::lemma_row_major_offset(
                    idx.0 as int,
                    idx.1 as int,
                    roads.spec_m() as int,
                    roads.spec_n() as int,
                );
                match a {
                    AxisDirection::Horizontal => {
                        crate::util::matrix::lemma_row_major_injective(
                            idx.0 as int,
                            idx.1 as int,
                            h[o as int].0 as int,
                            h[o as int].1 as int,
                            roads.spec_n() as int,
                        );
                        assert(r[o as int] == (a, idx));
                    },
                    AxisDirection::Vertical => {
                        crate::util::matrix::lemma_row_major_injective(
                            idx.0 as int,
                            idx.1 as int,
                            v[o as int].0 as int,
                            v[o as int].1 as int,
                            roads.spec_n() as int,
                        );
                        assert(r[hl + o as int] == (a, idx));
                    },
                }
            }
        }
        r
    }

    /// The intersection an in-travel lane arrives at: the end of the road
    /// that its compass heading points to.
    pub fn lane_to_intersection_index(
        &self,
        road_direction: AxisDirection,
        road_index: RoadIndex,
        lane_direction: LaneDirection,
    ) -> (r: IntersectionIndex)
        requires
            self.wf(),
            self.road_in_bounds(road_direction, road_index),
        ensures
            r == spec_lane_to_intersection(road_direction, road_index, lane_direction),
            r.0 < self.spec_m() && r.1 < self.spec_n(),
    {
        let (i, j) = road_index;
        match (road_direction, lane_direction) {
            (AxisDirection::Horizontal, LaneDirection::LowToHigh) => (i, j),
            (AxisDirection::Horizontal, LaneDirection::HighToLow) => (i, j + 1),
            (AxisDirection::Vertical, LaneDirection::LowToHigh) => (i + 1, j),
            (AxisDirection::Vertical, LaneDirection::HighToLow) => (i, j),
        }
    }
}

/// The intersection a lane heads into, written out as index arithmetic: a
/// horizontal `LowToHigh` lane heads west (to the slot's own index), its
/// opposite heads east; a vertical `LowToHigh` lane heads south.
pub open spec fn spec_lane_to_intersection(
    road_direction: AxisDirection,
    road_index: RoadIndex,
    lane_direction: LaneDirection,
) -> IntersectionIndex {
    match (road_direction, lane_direction) {
        (AxisDirection::Horizontal, LaneDirection::LowToHigh) => road_index,
        (AxisDirection::Horizontal, LaneDirection::HighToLow) => (
            road_index.0,
            (road_index.1 + 1) as usize,
        ),
        (AxisDirection::Vertical, LaneDirection::LowToHigh) => (
            (road_index.0 + 1) as usize,
            road_index.1,
        ),
        (AxisDirection::Vertical, LaneDirection::HighToLow) => road_index,
    }
}

/// The up-to-four road slots around one intersection.
pub type IntersectionContext = Around<Option<RoadIndex>>;

impl IntersectionContext {
    /// How many roads connect to the intersection.
    pub fn road_number(&self) -> (r: usize)
        ensures
            r == spec_count_some(self.north) + spec_count_some(self.south) + spec_count_some(
                self.east,
            ) + spec_count_some(self.west),
    {
        let mut count: usize = 0;
        if self.north.is_some() {
            count = count + 1;
        }
        if self.south.is_some() {
            count = count + 1;
        }
        if self.east.is_some() {
            count = count + 1;
        }
        if self.west.is_some() {
            count = count + 1;
        }
        count
    }
}

pub open spec fn spec_count_some(o: Option<RoadIndex>) -> int {
    if o is Some {
        1
    } else {
        0
    }
}

impl<I, R> Board<I, Option<R>> {
    /// The road slot adjacent to intersection `(i, j)` on the given compass
    /// side, before checking that a road is present there.
    pub open spec fn spec_neighbour_slot(&self, i: int, j: int, d: AbsoluteDirection) -> Option<
        (AxisDirection, RoadIndex),
    > {
        match d {
            AbsoluteDirection::North => if i > 0 {
                Some((AxisDirection::Vertical, ((i - 1) as usize, j as usize)))
            } else {
                None
            },
            AbsoluteDirection::South => Some((AxisDirection::Vertical, (i as usize, j as usize))),
            AbsoluteDirection::West => if j > 0 {
                Some((AxisDirection::Horizontal, (i as usize, (j - 1) as usize)))
            } else {
                None
            },
            AbsoluteDirection::East => Some((
                AxisDirection::Horizontal,
                (i as usize, j as usize),
            )),
        }
    }

    /// The road index present on one side of intersection `(i, j)`, or
    /// `None` where the slot is off the board or holds no road.
    pub open spec fn spec_context_side(&self, i: int, j: int, d: AbsoluteDirection) -> Option<
        RoadIndex,
    > {
        match self.spec_neighbour_slot(i, j, d) {
            None => None,
            Some((axis, index)) => if self.road_in_bounds(axis, index) && self.spec_road(
                axis,
                index,
            ) is Some {
                Some(index)
            } else {
                None
            },
        }
    }

    /// The up-to-four neighbouring roads of intersection `index`.
    pub fn context_of_intersection(&self, index: MatrixIndex) -> (r: IntersectionContext)
        requires
            self.wf(),
        ensures
            r.north == self.spec_context_side(index.0 as int, index.1 as int,
                AbsoluteDirection::North),
            r.south == self.spec_context_side(index.0 as int, index.1 as int,
                AbsoluteDirection::South),
            r.east == self.spec_context_side(index.0 as int, index.1 as int,
                AbsoluteDirection::East),
            r.west == self.spec_context_side(index.0 as int, index.1 as int,
                AbsoluteDirection::West),
    {
        let (i, j) = index;
        let north = if i != 0 {
            self.check_road_slot(AxisDirection::Vertical, (i - 1, j))
        } else {
            None
        };
        let south = self.check_road_slot(AxisDirection::Vertical, (i, j));
        let west = if j != 0 {
            self.check_road_slot(AxisDirection::Horizontal, (i, j - 1))
        } else {
            None
        };
        let east = self.check_road_slot(AxisDirection::Horizontal, (i, j));
        Around { north, west, south, east }
    }

    /// `Some(index)` exactly when the slot exists and holds a road.
    fn check_road_slot(&self, axis: AxisDirection, index: RoadIndex) -> (r: Option<RoadIndex>)
        requires
            self.wf(),
        ensures
            r == if self.road_in_bounds(axis, index) && self.spec_road(axis, index) is Some {
                Some(index)
            } else {
                None::<RoadIndex>
            },
    {
        match self.get_road(axis, index) {
            Some(road) => match road {
                Some(_) => Some(index),
                None => None,
            },
            None => None,
        }
    }
}

impl<I: Clone, R: Clone> Board<I, R> {
    /// A board of the given shape with every intersection slot a clone of
    /// `i` and every road slot a clone of `r`.
    pub fn with_shape(i: I, r: R, shape: MatrixShape) -> (b: Board<I, R>)
        requires
            shape.0 >= 1,
            shape.1 >= 1,
            shape.0 * shape.1 <= usize::MAX,
        ensures
            b.wf(),
            b.spec_m() == shape.0,
            b.spec_n() == shape.1,
    {
        let (m, n) = shape;
        proof {
            assert(m * (n - 1) <= m * n && (m - 1) * n <= m * n) by (nonlinear_arith)
                requires
                    m >= 1,
                    n >= 1,
            ;
        }
        Board {
            intersections: Matrix::with_shape(i, (m, n)),
            horizontal_roads: Matrix::with_shape(r.clone(), (m, n - 1)),
            vertical_roads: Matrix::with_shape(r, (m - 1, n)),
        }
    }
}

} // verus!
