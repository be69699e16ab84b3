//! Directions, turn rules and the integer geometry shared by the whole
//! model.
//!
//! All lengths, speeds and times in the model are plain integer quantities
//! in one consistent unit system; `QUANTITY_LIMIT` bounds every static
//! quantity so that the kinematics arithmetic stays well inside `i64`.

use vstd::prelude::*;

verus! {

pub type CarIndex = usize;

pub type LaneIndex = usize;

/// Bound on every static model quantity (lengths, speeds, times).
pub const QUANTITY_LIMIT: i64 = 1_000_000;

/// Compass direction on the board: rows grow to the south, columns to the
/// east.
#[derive(Clone, Copy, Debug, PartialEq, Eq, Structural)]
pub enum AbsoluteDirection {
    North,
    West,
    South,
    East,
}

/// Direction of a turn relative to the driver's heading.
#[derive(Clone, Copy, Debug, PartialEq, Eq, Structural)]
pub enum RelativeDirection {
    Front,
    Right,
    Back,
    Left,
}

/// Axis of a road slot on the board.
#[derive(Clone, Copy, Debug, PartialEq, Eq, Structural)]
pub enum AxisDirection {
    Horizontal,
    Vertical,
}

/// Direction of travel along a road's axis.
#[derive(Clone, Copy, Debug, PartialEq, Eq, Structural)]
pub enum LaneDirection {
    LowToHigh,
    HighToLow,
}

/// Whether a lane leads into or out of an intersection.
#[derive(Clone, Copy, Debug, PartialEq, Eq, Structural)]
pub enum InOutDirection {
    In,
    Out,
}

pub open spec fn spec_turn_back(d: AbsoluteDirection) -> AbsoluteDirection {
    match d {
        AbsoluteDirection::East => AbsoluteDirection::West,
        AbsoluteDirection::West => AbsoluteDirection::East,
        AbsoluteDirection::North => AbsoluteDirection::South,
        AbsoluteDirection::South => AbsoluteDirection::North,
    }
}

pub open spec fn spec_turn_left(d: AbsoluteDirection) -> AbsoluteDirection {
    match d {
        AbsoluteDirection::East => AbsoluteDirection::North,
        AbsoluteDirection::West => AbsoluteDirection::South,
        AbsoluteDirection::North => AbsoluteDirection::West,
        AbsoluteDirection::South => AbsoluteDirection::East,
    }
}

pub open spec fn spec_turn_right(d: AbsoluteDirection) -> AbsoluteDirection {
    match d {
        AbsoluteDirection::East => AbsoluteDirection::South,
        AbsoluteDirection::West => AbsoluteDirection::North,
        AbsoluteDirection::North => AbsoluteDirection::East,
        AbsoluteDirection::South => AbsoluteDirection::West,
    }
}

pub open spec fn spec_turn(d: AbsoluteDirection, t: RelativeDirection) -> AbsoluteDirection {
    match t {
        RelativeDirection::Left => spec_turn_left(d),
        RelativeDirection::Right => spec_turn_right(d),
        RelativeDirection::Front => d,
        RelativeDirection::Back => spec_turn_back(d),
    }
}

pub open spec fn spec_should_turn(d: AbsoluteDirection, other: AbsoluteDirection)
    -> RelativeDirection {
    if d == other {
        RelativeDirection::Front
    } else if spec_turn_left(d) == other {
        RelativeDirection::Left
    } else if spec_turn_right(d) == other {
        RelativeDirection::Right
    } else {
        RelativeDirection::Back
    }
}

pub open spec fn spec_axis_direction(d: AbsoluteDirection) -> AxisDirection {
    match d {
        AbsoluteDirection::East | AbsoluteDirection::West => AxisDirection::Horizontal,
        AbsoluteDirection::North | AbsoluteDirection::South => AxisDirection::Vertical,
    }
}

impl AbsoluteDirection {
    /// The opposite compass direction.
    #[verifier::when_used_as_spec(spec_turn_back_method)]
    pub fn turn_back(self) -> (r: AbsoluteDirection)
        ensures
            r == spec_turn_back(self),
    {
        match self {
            AbsoluteDirection::East => AbsoluteDirection::West,
            AbsoluteDirection::West => AbsoluteDirection::East,
            AbsoluteDirection::North => AbsoluteDirection::South,
            AbsoluteDirection::South => AbsoluteDirection::North,
        }
    }

    pub open spec fn spec_turn_back_method(self) -> AbsoluteDirection {
        spec_turn_back(self)
    }

    /// The direction after a left turn.
    pub fn turn_left(self) -> (r: AbsoluteDirection)
        ensures
            r == spec_turn_left(self),
    {
        match self {
            AbsoluteDirection::East => AbsoluteDirection::North,
            AbsoluteDirection::West => AbsoluteDirection::South,
            AbsoluteDirection::North => AbsoluteDirection::West,
            AbsoluteDirection::South => AbsoluteDirection::East,
        }
    }

    /// The direction after a right turn.
    pub fn turn_right(self) -> (r: AbsoluteDirection)
        ensures
            r == spec_turn_right(self),
    {
        match self {
            AbsoluteDirection::East => AbsoluteDirection::South,
            AbsoluteDirection::West => AbsoluteDirection::North,
            AbsoluteDirection::North => AbsoluteDirection::East,
            AbsoluteDirection::South => AbsoluteDirection::West,
        }
    }

    /// The heading after taking the relative turn `t`.
    pub fn turn(self, t: RelativeDirection) -> (r: AbsoluteDirection)
        ensures
            r == spec_turn(self, t),
    {
        match t {
            RelativeDirection::Left => self.turn_left(),
            RelativeDirection::Right => self.turn_right(),
            RelativeDirection::Front => self,
            RelativeDirection::Back => self.turn_back(),
        }
    }

    /// The relative turn that takes heading `self` to heading `other`.
    pub fn should_turn(self, other: AbsoluteDirection) -> (r: RelativeDirection)
        ensures
            r == spec_should_turn(self, other),
            spec_turn(self, r) == other,
    {
        if self == other {
            RelativeDirection::Front
        } else if self.turn_left() == other {
            RelativeDirection::Left
        } else if self.turn_right() == other {
            RelativeDirection::Right
        } else {
            RelativeDirection::Back
        }
    }

    /// The axis a road pointing this way lies on.
    pub fn axis_direction(self) -> (r: AxisDirection)
        ensures
            r == spec_axis_direction(self),
    {
        match self {
            AbsoluteDirection::East | AbsoluteDirection::West => AxisDirection::Horizontal,
            AbsoluteDirection::North | AbsoluteDirection::South => AxisDirection::Vertical,
        }
    }

    /// All four compass directions, in the fixed enumeration order used for
    /// spawn-lane search.
    pub fn directions() -> (r: [AbsoluteDirection; 4])
        ensures
            r@ == seq![
                AbsoluteDirection::North,
                AbsoluteDirection::South,
                AbsoluteDirection::East,
                AbsoluteDirection::West,
            ],
    {
        let r = [
            AbsoluteDirection::North,
            AbsoluteDirection::South,
            AbsoluteDirection::East,
            AbsoluteDirection::West,
        ];
        proof {
            assert(r@ =~= seq![
                AbsoluteDirection::North,
                AbsoluteDirection::South,
                AbsoluteDirection::East,
                AbsoluteDirection::West,
            ]);
        }
        r
    }

    /// The compass direction a lane travels in, from its road's axis and its
    /// lane direction.
    pub fn of_lane(axis: AxisDirection, lane_direction: LaneDirection) -> (r: AbsoluteDirection)
        ensures
            r == spec_of_lane(axis, lane_direction),
    {
        match (axis, lane_direction) {
            (AxisDirection::Horizontal, LaneDirection::LowToHigh) => AbsoluteDirection::West,
            (AxisDirection::Horizontal, LaneDirection::HighToLow) => AbsoluteDirection::East,
            (AxisDirection::Vertical, LaneDirection::LowToHigh) => AbsoluteDirection::South,
            (AxisDirection::Vertical, LaneDirection::HighToLow) => AbsoluteDirection::North,
        }
    }
}

pub open spec fn spec_of_lane(axis: AxisDirection, lane_direction: LaneDirection)
    -> AbsoluteDirection {
    match (axis, lane_direction) {
        (AxisDirection::Horizontal, LaneDirection::LowToHigh) => AbsoluteDirection::West,
        (AxisDirection::Horizontal, LaneDirection::HighToLow) => AbsoluteDirection::East,
        (AxisDirection::Vertical, LaneDirection::LowToHigh) => AbsoluteDirection::South,
        (AxisDirection::Vertical, LaneDirection::HighToLow) => AbsoluteDirection::North,
    }
}

impl AxisDirection {
    /// Both axes, in the fixed enumeration order.
    pub fn directions() -> (r: [AxisDirection; 2])
        ensures
            r@ == seq![AxisDirection::Horizontal, AxisDirection::Vertical],
    {
        let r = [AxisDirection::Horizontal, AxisDirection::Vertical];
        proof {
            assert(r@ =~= seq![AxisDirection::Horizontal, AxisDirection::Vertical]);
        }
        r
    }
}

pub open spec fn spec_opposite(d: LaneDirection) -> LaneDirection {
    match d {
        LaneDirection::LowToHigh => LaneDirection::HighToLow,
        LaneDirection::HighToLow => LaneDirection::LowToHigh,
    }
}

pub open spec fn spec_absolute_in_out_to_lane(
    absolute_direction: AbsoluteDirection,
    in_out: InOutDirection,
) -> LaneDirection {
    match absolute_direction {
        AbsoluteDirection::North | AbsoluteDirection::East => match in_out {
            InOutDirection::In => LaneDirection::LowToHigh,
            InOutDirection::Out => LaneDirection::HighToLow,
        },
        AbsoluteDirection::South | AbsoluteDirection::West => match in_out {
            InOutDirection::In => LaneDirection::HighToLow,
            InOutDirection::Out => LaneDirection::LowToHigh,
        },
    }
}

impl LaneDirection {
    /// Both lane directions, in the fixed enumeration order.
    pub fn lane_directions() -> (r: [LaneDirection; 2])
        ensures
            r@ == seq![LaneDirection::LowToHigh, LaneDirection::HighToLow],
    {
        let r = [LaneDirection::LowToHigh, LaneDirection::HighToLow];
        proof {
            assert(r@ =~= seq![LaneDirection::LowToHigh, LaneDirection::HighToLow]);
        }
        r
    }

    /// The other direction of travel on the same road.
    pub fn opposite(self) -> (r: LaneDirection)
        ensures
            r == spec_opposite(self),
    {
        match self {
            LaneDirection::LowToHigh => LaneDirection::HighToLow,
            LaneDirection::HighToLow => LaneDirection::LowToHigh,
        }
    }

    /// The lane direction of the lane that enters (or leaves) an
    /// intersection from the given compass side.
    pub fn absolute_in_out_to_lane(
        absolute_direction: AbsoluteDirection,
        in_out: InOutDirection,
    ) -> (r: LaneDirection)
        ensures
            r == spec_absolute_in_out_to_lane(absolute_direction, in_out),
    {
        match absolute_direction {
            AbsoluteDirection::North | AbsoluteDirection::East => match in_out {
                InOutDirection::In => LaneDirection::LowToHigh,
                InOutDirection::Out => LaneDirection::HighToLow,
            },
            AbsoluteDirection::South | AbsoluteDirection::West => match in_out {
                InOutDirection::In => LaneDirection::HighToLow,
                InOutDirection::Out => LaneDirection::LowToHigh,
            },
        }
    }
}

pub open spec fn spec_in_or_out(
    absolute_direction: AbsoluteDirection,
    lane_direction: LaneDirection,
) -> InOutDirection {
    match absolute_direction {
        AbsoluteDirection::North | AbsoluteDirection::East => match lane_direction {
            LaneDirection::LowToHigh => InOutDirection::In,
            LaneDirection::HighToLow => InOutDirection::Out,
        },
        AbsoluteDirection::South | AbsoluteDirection::West => match lane_direction {
            LaneDirection::LowToHigh => InOutDirection::Out,
            LaneDirection::HighToLow => InOutDirection::In,
        },
    }
}

impl InOutDirection {
    /// Whether a lane with the given lane direction leads into or out of the
    /// intersection on the given compass side.
    pub fn in_or_out(
        absolute_direction: AbsoluteDirection,
        lane_direction: LaneDirection,
    ) -> (r: InOutDirection)
        ensures
            r == spec_in_or_out(absolute_direction, lane_direction),
    {
        match absolute_direction {
            AbsoluteDirection::North | AbsoluteDirection::East => match lane_direction {
                LaneDirection::LowToHigh => InOutDirection::In,
                LaneDirection::HighToLow => InOutDirection::Out,
            },
            AbsoluteDirection::South | AbsoluteDirection::West => match lane_direction {
                LaneDirection::LowToHigh => InOutDirection::Out,
                LaneDirection::HighToLow => InOutDirection::In,
            },
        }
    }
}

/// A bitset of permitted turn outcomes for a vehicle leaving a lane:
/// front, left, right and back, one bit each.
#[derive(Clone, Copy, Debug, PartialEq, Eq, Structural)]
pub struct TurnRule {
    pub bits: u8,
}

pub const TURN_RULE_FRONT: u8 = 0b0000_0001;

pub const TURN_RULE_LEFT: u8 = 0b0000_0010;

pub const TURN_RULE_RIGHT: u8 = 0b0000_0100;

pub const TURN_RULE_BACK: u8 = 0b0000_1000;

pub const TURN_RULE_ALL: u8 = 0b0000_1111;

/// The bit standing for one relative turn.
pub open spec fn spec_turn_mask(t: RelativeDirection) -> u8 {
    match t {
        RelativeDirection::Front => TURN_RULE_FRONT,
        RelativeDirection::Left => TURN_RULE_LEFT,
        RelativeDirection::Right => TURN_RULE_RIGHT,
        RelativeDirection::Back => TURN_RULE_BACK,
    }
}

impl TurnRule {
    /// Whether the rule permits the relative turn `t`.
    pub open spec fn allows(self, t: RelativeDirection) -> bool {
        self.bits & spec_turn_mask(t) != 0
    }

    /// Whether any of the four turns is permitted.
    pub open spec fn spec_any(self) -> bool {
        self.allows(RelativeDirection::Front) || self.allows(RelativeDirection::Back)
            || self.allows(RelativeDirection::Left) || self.allows(RelativeDirection::Right)
    }

    /// The rule that permits nothing.
    pub fn empty() -> (r: TurnRule)
        ensures
            r.bits == 0,
            forall|t: RelativeDirection| !r.allows(t),
    {
        let r = TurnRule { bits: 0 };
        proof {
            assert forall|t: RelativeDirection| !r.allows(t) by {
                assert(0u8 & spec_turn_mask(t) == 0) by (bit_vector);
            }
        }
        r
    }

    /// The rule that permits every turn.
    pub fn all() -> (r: TurnRule)
        ensures
            r.bits == TURN_RULE_ALL,
            forall|t: RelativeDirection| r.allows(t),
    {
        let r = TurnRule { bits: TURN_RULE_ALL };
        proof {
            assert forall|t: RelativeDirection| r.allows(t) by {
                let m = spec_turn_mask(t);
                assert(m == 1 || m == 2 || m == 4 || m == 8);
                assert(0b0000_1111u8 & 1 != 0 && 0b0000_1111u8 & 2 != 0 && 0b0000_1111u8 & 4 != 0
                    && 0b0000_1111u8 & 8 != 0) by (bit_vector);
            }
        }
        r
    }

    /// Whether the rule permits the relative turn `t`.
    pub fn contains_turn(self, t: RelativeDirection) -> (r: bool)
        ensures
            r == self.allows(t),
    {
        let mask = match t {
            RelativeDirection::Front => TURN_RULE_FRONT,
            RelativeDirection::Left => TURN_RULE_LEFT,
            RelativeDirection::Right => TURN_RULE_RIGHT,
            RelativeDirection::Back => TURN_RULE_BACK,
        };
        self.bits & mask != 0
    }

    /// Whether the two rules share any permitted turn bit.
    pub fn intersects(self, other: TurnRule) -> (r: bool)
        ensures
            r == (self.bits & other.bits != 0),
    {
        self.bits & other.bits != 0
    }
}

impl RelativeDirection {
    /// The single-bit rule standing for this turn.
    pub fn to_turn_rule(self) -> (r: TurnRule)
        ensures
            r.bits == spec_turn_mask(self),
            forall|t: RelativeDirection| r.allows(t) <==> t == self,
    {
        let mask = match self {
            RelativeDirection::Front => TURN_RULE_FRONT,
            RelativeDirection::Left => TURN_RULE_LEFT,
            RelativeDirection::Right => TURN_RULE_RIGHT,
            RelativeDirection::Back => TURN_RULE_BACK,
        };
        let r = TurnRule { bits: mask };
        proof {
            assert forall|t: RelativeDirection| r.allows(t) <==> t == self by {
                let a = spec_turn_mask(t);
                let b = spec_turn_mask(self);
                assert((a == 1 || a == 2 || a == 4 || a == 8) && (b == 1 || b == 2 || b == 4 || b
                    == 8));
                assert(forall|x: u8, y: u8|
                    (x == 1 || x == 2 || x == 4 || x == 8) && (y == 1 || y == 2 || y == 4 || y
                        == 8) ==> ((#[trigger] (y & x)) != 0 <==> x == y)) by (bit_vector);
            }
        }
        r
    }
}

/// A value for each compass side of an intersection.
#[derive(Clone, Copy, Debug, PartialEq, Eq)]
pub struct Around<T> {
    pub north: T,
    pub west: T,
    pub south: T,
    pub east: T,
}

impl<T> Around<T> {
    /// The spec-level projection on one side.
    pub open spec fn spec_get(&self, direction: AbsoluteDirection) -> T {
        match direction {
            AbsoluteDirection::North => self.north,
            AbsoluteDirection::West => self.west,
            AbsoluteDirection::South => self.south,
            AbsoluteDirection::East => self.east,
        }
    }

    /// The value on one side.
    pub fn get(&self, direction: AbsoluteDirection) -> (r: &T)
        ensures
            *r == self.spec_get(direction),
    {
        match direction {
            AbsoluteDirection::North => &self.north,
            AbsoluteDirection::West => &self.west,
            AbsoluteDirection::South => &self.south,
            AbsoluteDirection::East => &self.east,
        }
    }

    /// Replace the value on one side, leaving the other sides unchanged.
    pub fn set(&mut self, direction: AbsoluteDirection, value: T)
        ensures
            final(self).spec_get(direction) == value,
            forall|d: AbsoluteDirection| d != direction ==> final(self).spec_get(d) == old(
                self,
            ).spec_get(d),
    {
        match direction {
            AbsoluteDirection::North => {
                self.north = value;
            },
            AbsoluteDirection::West => {
                self.west = value;
            },
            AbsoluteDirection::South => {
                self.south = value;
            },
            AbsoluteDirection::East => {
                self.east = value;
            },
        }
    }
}

/// A width and height in model units.
#[derive(Clone, Copy, Debug, PartialEq, Eq, Structural)]
pub struct Geometry {
    pub width: i64,
    pub height: i64,
}

/// A point in model units.
#[derive(Clone, Copy, Debug, PartialEq, Eq, Structural)]
pub struct Position {
    pub x: i64,
    pub y: i64,
}

/// `r` is the integer square root of `v`.
pub open spec fn is_isqrt(r: int, v: int) -> bool {
    0 <= r && r * r <= v < (r + 1) * (r + 1)
}

/// Integer square root, rounded down.
pub fn isqrt(v: u64) -> (r: u64)
    requires
        v <= 32_000_000_000_000,
    ensures
        is_isqrt(r as int, v as int),
{
    let mut r: u64 = 0;
    while (r + 1) * (r + 1) <= v
        invariant
            v <= 32_000_000_000_000,
            r * r <= v,
            r <= 6_000_000,
            (r + 1) * (r + 1) <= 36_000_012_000_001,
        decreases v - r * r,
    {
        proof {
            assert(r * r < (r + 1) * (r + 1)) by (nonlinear_arith);
            assert((r + 1) * (r + 1) <= v ==> r + 1 <= 6_000_000) by (nonlinear_arith)
                requires
                    v <= 32_000_000_000_000,
            ;
        }
        r = r + 1;
        proof {
            assert((r + 1) * (r + 1) <= 36_000_012_000_001) by (nonlinear_arith)
                requires
                    r <= 6_000_000,
            ;
        }
    }
    proof {
        assert(r * r <= v < (r + 1) * (r + 1));
    }
    r
}

impl Position {
    /// Euclidean distance to `other`, rounded down to an integer.
    pub fn distance(self, other: Position) -> (r: i64)
        requires
            -4 * QUANTITY_LIMIT <= self.x - other.x <= 4 * QUANTITY_LIMIT,
            -4 * QUANTITY_LIMIT <= self.y - other.y <= 4 * QUANTITY_LIMIT,
        ensures
            is_isqrt(
                r as int,
                (self.x - other.x) * (self.x - other.x) + (self.y - other.y) * (self.y - other.y),
            ),
            0 <= r <= 8 * QUANTITY_LIMIT,
    {
        let dx = self.x - other.x;
        let dy = self.y - other.y;
        proof {
            assert(dx * dx <= 16_000_000_000_000 && dy * dy <= 16_000_000_000_000)
                by (nonlinear_arith)
                requires
                    -4_000_000 <= dx <= 4_000_000,
                    -4_000_000 <= dy <= 4_000_000,
            ;
            assert(dx * dx >= 0 && dy * dy >= 0) by (nonlinear_arith);
        }
        let sq: u64 = ((dx * dx) as u64) + ((dy * dy) as u64);
        let r = isqrt(sq);
        proof {
            assert(r <= 8_000_000) by (nonlinear_arith)
                requires
                    is_isqrt(r as int, sq as int),
                    sq <= 32_000_000_000_000,
            ;
        }
        r as i64
    }
}


/// The lane conventions agree: the outgoing lane on side `d` of an
/// intersection heads `d`, the incoming lane heads back toward it, and
/// `in_or_out` is the inverse of that assignment.
pub proof fn lemma_lane_direction_conventions(d: AbsoluteDirection)
    ensures
        spec_of_lane(
            spec_axis_direction(d),
            spec_absolute_in_out_to_lane(d, InOutDirection::Out),
        ) == d,
        spec_of_lane(
            spec_axis_direction(d),
            spec_absolute_in_out_to_lane(d, InOutDirection::In),
        ) == spec_turn_back(d),
        forall|ld: LaneDirection|
            spec_absolute_in_out_to_lane(d, #[trigger] spec_in_or_out(d, ld)) == ld,
{
}

} // verus!
