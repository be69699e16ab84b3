//! Static intersection data: the kind of each intersection, its rule sets
//! and its signal switch policy.

use crate::model::common::{AbsoluteDirection, Around, TurnRule, QUANTITY_LIMIT};
use vstd::prelude::*;

verus! {

/// The static definition of one intersection, classified by the number of
/// connected roads: a four-way crossroad, a T-junction, a bend, a straight
/// pass-through or a dead end.  Only the first two carry a signal.
#[derive(Clone, Debug)]
pub enum Intersection {
    Crossroad { max_speed: i64, rules: Vec<CrossroadRule>, switch_rule: SwitchRule },
    TJunction {
        max_speed: i64,
        /// The arm with no road straight ahead.
        single: AbsoluteDirection,
        rule_set: Vec<TJunctionRule>,
        switch_rule: SwitchRule,
    },
    Turn { max_speed: i64 },
    Straight,
    End { max_speed: i64 },
}

/// One crossroad phase: the permitted turns for traffic arriving from each
/// compass side.
pub type CrossroadRule = Around<TurnRule>;

/// One T-junction phase.  The three arms are named from the `single` arm
/// (the one with no road straight ahead): `left` and `right` are the left
/// and right arms as seen by a driver arriving on `single`.
#[derive(Clone, Copy, Debug, PartialEq, Eq, Structural)]
pub struct TJunctionRule {
    pub for_single: TurnRule,
    pub for_left: TurnRule,
    pub for_right: TurnRule,
}

/// The signal switch policy: cycle through the phase durations `times`,
/// advancing on timeout.
#[derive(Clone, Debug)]
pub enum SwitchRule {
    LoopTimeout { times: Vec<i64> },
}

impl SwitchRule {
    /// At least one phase duration, each a bounded non-negative quantity.
    pub open spec fn wf(&self) -> bool {
        match self {
            SwitchRule::LoopTimeout { times } => {
                &&& times.len() >= 1
                &&& forall|i: int| 0 <= i < times.len() ==> 0 <= #[trigger] times[i]
                    <= QUANTITY_LIMIT
            },
        }
    }

    pub open spec fn spec_times(&self) -> Seq<i64> {
        match self {
            SwitchRule::LoopTimeout { times } => times@,
        }
    }
}

impl Intersection {
    /// Rule sets are non-empty, phase durations well-formed, and the speed
    /// limit a bounded quantity.
    pub open spec fn wf(&self) -> bool {
        match self {
            Intersection::Crossroad { max_speed, rules, switch_rule } => {
                &&& 0 <= *max_speed <= QUANTITY_LIMIT
                &&& rules.len() >= 1
                &&& switch_rule.wf()
            },
            Intersection::TJunction { max_speed, single: _, rule_set, switch_rule } => {
                &&& 0 <= *max_speed <= QUANTITY_LIMIT
                &&& rule_set.len() >= 1
                &&& switch_rule.wf()
            },
            Intersection::Turn { max_speed } => 0 <= *max_speed <= QUANTITY_LIMIT,
            Intersection::Straight => true,
            Intersection::End { max_speed } => 0 <= *max_speed <= QUANTITY_LIMIT,
        }
    }

    /// The speed limit inside the intersection; a `Straight` pass-through
    /// imposes none.
    pub open spec fn spec_max_speed(&self) -> Option<i64> {
        match self {
            Intersection::Crossroad { max_speed, .. } => Some(*max_speed),
            Intersection::TJunction { max_speed, .. } => Some(*max_speed),
            Intersection::Turn { max_speed } => Some(*max_speed),
            Intersection::Straight => None,
            Intersection::End { max_speed } => Some(*max_speed),
        }
    }
}

} // verus!
