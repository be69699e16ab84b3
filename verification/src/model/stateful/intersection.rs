//! The mutable signal state of an intersection and the rule cache derived
//! from it.

use crate::model::common::{AbsoluteDirection, Around, TurnRule, QUANTITY_LIMIT};
use crate::model::stateless;
use vstd::prelude::*;

verus! {

/// The mutable part of one intersection.  Signal-carrying kinds hold the
/// currently allowed per-direction turn rules (`current`, a cache always
/// derivable from the switch state) and the switch state itself.
#[derive(Clone, Copy, Debug, PartialEq, Eq)]
pub enum Intersection {
    Crossroad { current: Around<TurnRule>, switch_state: SwitchState },
    TJunction { current: Around<TurnRule>, switch_state: SwitchState },
    Turn,
    Straight,
    End,
}

/// The signal switch state: time left in the current phase, the index of
/// that phase in the duration list and the index of the active rule set.
/// The two indices cycle independently, each modulo its own list length.
#[derive(Clone, Copy, Debug, PartialEq, Eq, Structural)]
pub enum SwitchState {
    LoopTimeout { remain_time: i64, time_index: usize, rule_index: usize },
}

/// A stateful intersection was paired with a stateless definition of
/// another kind, or with an out-of-range rule index: a programming
/// invariant was violated and the tick must not continue silently.
#[derive(Clone, Copy, Debug, PartialEq, Eq, Structural)]
pub struct KindMismatch;

impl SwitchState {
    pub open spec fn spec_remain_time(&self) -> i64 {
        match self {
            SwitchState::LoopTimeout { remain_time, .. } => *remain_time,
        }
    }

    pub open spec fn spec_time_index(&self) -> usize {
        match self {
            SwitchState::LoopTimeout { time_index, .. } => *time_index,
        }
    }

    pub open spec fn spec_rule_index(&self) -> usize {
        match self {
            SwitchState::LoopTimeout { rule_index, .. } => *rule_index,
        }
    }

    /// The remaining time never exceeds one bounded phase duration.
    pub open spec fn wf(&self) -> bool {
        self.spec_remain_time() <= QUANTITY_LIMIT
    }
}

impl Intersection {
    /// The signal kinds carry a well-formed switch state.
    pub open spec fn wf(&self) -> bool {
        match self {
            Intersection::Crossroad { switch_state, .. } => switch_state.wf(),
            Intersection::TJunction { switch_state, .. } => switch_state.wf(),
            _ => true,
        }
    }

    /// Whether this stateful intersection is of the same kind as the given
    /// stateless definition, with its indices in range of the definition's
    /// lists.
    pub open spec fn matches_stateless(&self, stateless: &stateless::Intersection) -> bool {
        match (self, stateless) {
            (
                Intersection::Crossroad { switch_state, .. },
                stateless::Intersection::Crossroad { rules, switch_rule, .. },
            ) => switch_state.spec_rule_index() < rules.len() && switch_state.spec_time_index()
                < switch_rule.spec_times().len(),
            (
                Intersection::TJunction { switch_state, .. },
                stateless::Intersection::TJunction { rule_set, switch_rule, .. },
            ) => switch_state.spec_rule_index() < rule_set.len() && switch_state.spec_time_index()
                < switch_rule.spec_times().len(),
            (Intersection::Turn, stateless::Intersection::Turn { .. }) => true,
            (Intersection::Straight, stateless::Intersection::Straight) => true,
            (Intersection::End, stateless::Intersection::End { .. }) => true,
            _ => false,
        }
    }

    /// The rule cache a signal kind should hold, derived from its rule
    /// index and the stateless definition.
    pub open spec fn spec_current_for(
        switch_state: SwitchState,
        stateless: &stateless::Intersection,
    ) -> Around<TurnRule> {
        match stateless {
            stateless::Intersection::Crossroad { rules, .. } => rules@[switch_state.spec_rule_index(
            ) as int],
            stateless::Intersection::TJunction { single, rule_set, .. } => {
                let rule = rule_set@[switch_state.spec_rule_index() as int];
                Around {
                    north: spec_tjunction_side(*single, rule, AbsoluteDirection::North),
                    west: spec_tjunction_side(*single, rule, AbsoluteDirection::West),
                    south: spec_tjunction_side(*single, rule, AbsoluteDirection::South),
                    east: spec_tjunction_side(*single, rule, AbsoluteDirection::East),
                }
            },
            _ => Around {
                north: TurnRule { bits: 0 },
                west: TurnRule { bits: 0 },
                south: TurnRule { bits: 0 },
                east: TurnRule { bits: 0 },
            },
        }
    }

    /// Recompute the cached `current` rules from the switch state and the
    /// stateless definition.  Fails exactly when the stateful and stateless
    /// kinds do not pair up (or an index is out of range); on that failure
    /// nothing is changed and the caller must abort the tick.
    pub fn update_current(&mut self, stateless: &stateless::Intersection) -> (r: Result<
        (),
        KindMismatch,
    >)
        ensures
            r is Ok <==> (old(self).matches_stateless(stateless) || !((*old(self)) is Crossroad
                || (*old(self)) is TJunction)),
            r is Err ==> *final(self) == *old(self),
            match (*old(self), r) {
                (Intersection::Crossroad { switch_state, .. }, Result::Ok(_)) => *final(self)
                    == (Intersection::Crossroad {
                    current: Intersection::spec_current_for(switch_state, stateless),
                    switch_state,
                }),
                (Intersection::TJunction { switch_state, .. }, Result::Ok(_)) => *final(self)
                    == (Intersection::TJunction {
                    current: Intersection::spec_current_for(switch_state, stateless),
                    switch_state,
                }),
                (_, Result::Ok(_)) => *final(self) == *old(self),
                (_, Result::Err(_)) => true,
            },
    {
        match self {
            Intersection::Crossroad { current, switch_state } => {
                let SwitchState::LoopTimeout { rule_index, time_index, .. } = *switch_state;
                match stateless {
                    stateless::Intersection::Crossroad { rules, switch_rule, .. } => {
                        let SwitchRuleView { times_len } = switch_rule_view(switch_rule);
                        if rule_index < rules.len() && time_index < times_len {
                            *current = rules[rule_index];
                            Ok(())
                        } else {
                            Err(KindMismatch)
                        }
                    },
                    _ => Err(KindMismatch),
                }
            },
            Intersection::TJunction { current, switch_state } => {
                let SwitchState::LoopTimeout { rule_index, time_index, .. } = *switch_state;
                match stateless {
                    stateless::Intersection::TJunction { single, rule_set, switch_rule, .. } => {
                        let SwitchRuleView { times_len } = switch_rule_view(switch_rule);
                        if rule_index < rule_set.len() && time_index < times_len {
                            let rule = rule_set[rule_index];
                            let driver_direction = single.turn_back();
                            current.set(*single, rule.for_single);
                            current.set(driver_direction.turn_left(), rule.for_left);
                            current.set(driver_direction.turn_right(), rule.for_right);
                            current.set(single.turn_back(), TurnRule::empty());
                            Ok(())
                        } else {
                            Err(KindMismatch)
                        }
                    },
                    _ => Err(KindMismatch),
                }
            },
            _ => Ok(()),
        }
    }
}

/// The rule a T-junction phase grants to traffic arriving from side `d`:
/// the `single` arm, then the left and right arms as seen by a driver
/// arriving on `single`; the armless fourth side gets nothing.
pub open spec fn spec_tjunction_side(
    single: AbsoluteDirection,
    rule: stateless::intersection::TJunctionRule,
    d: AbsoluteDirection,
) -> TurnRule {
    let driver = crate::model::common::spec_turn_back(single);
    if d == single {
        rule.for_single
    } else if d == crate::model::common::spec_turn_left(driver) {
        rule.for_left
    } else if d == crate::model::common::spec_turn_right(driver) {
        rule.for_right
    } else {
        TurnRule { bits: 0 }
    }
}

/// The number of phase durations of a switch rule.
struct SwitchRuleView {
    times_len: usize,
}

fn switch_rule_view(switch_rule: &stateless::intersection::SwitchRule) -> (r: SwitchRuleView)
    ensures
        r.times_len == switch_rule.spec_times().len(),
{
    match switch_rule {
        stateless::intersection::SwitchRule::LoopTimeout { times } => SwitchRuleView {
            times_len: times.len(),
        },
    }
}

} // verus!
