//! The per-tick control logic: building the local snapshot, advancing
//! every vehicle of a worker's range, advancing intersection signals and
//! merging the results.

pub mod process_local_state;

use crate::model::common::{
    AbsoluteDirection, AxisDirection, CarIndex, InOutDirection, LaneDirection, LaneIndex,
    RelativeDirection, TurnRule, QUANTITY_LIMIT,
};
use crate::communication::Division;
use crate::communication::WIRE_COUNT_LIMIT;
use crate::model::codec;
use crate::model::stateful::intersection::KindMismatch;
use crate::model::stateless::car::DrivingModel;
use crate::model::{stateful, stateless, VELOCITY_LIMIT};
use process_local_state::{lane_position, occupies, ProcessLocalState};
use vstd::prelude::*;

verus! {

/// The tick-advancing part of the controller: it remembers which worker
/// holds the next spawn turn.
#[derive(Clone, Copy, Debug, PartialEq, Eq, Structural)]
pub struct UpdateController {
    pub car_out_rank: usize,
}

impl UpdateController {
    /// A fresh controller: the first spawn turn belongs to worker 0.
    pub fn new() -> (r: Self)
        ensures
            r.car_out_rank == 0,
    {
        Self { car_out_rank: 0 }
    }
}

/// Relies on `rand::random_range`: a draw from `0..n`, uniform, which is
/// below `n` whenever the range is non-empty.
#[verifier::external_body]
fn random_below(n: usize) -> (r: usize)
    requires
        n >= 1,
    ensures
        r < n,
{
    rand::random_range(0..n)
}

/// Euclidean division of a bounded quantity by a positive divisor.
fn div_quantity(a: i64, b: i64) -> (r: i64)
    requires
        1 <= b,
        -0x1000_0000_0000_0000 <= a <= 0x1000_0000_0000_0000,
        b <= 0x1000_0000_0000_0000,
    ensures
        r == a as int / b as int,
        a >= 0 ==> 0 <= r <= a,
        a < 0 ==> a <= r <= 0,
{
    if a >= 0 {
        let q = ((a as u64) / (b as u64)) as i64;
        proof {
            vstd::arithmetic::div_mod::lemma_div_nonincreasing(a as int, b as int);
            vstd::arithmetic::div_mod::lemma_div_is_ordered(0, a as int, b as int);
        }
        q
    } else {
        let m = -(a + 1);
        proof {
            vstd::arithmetic::div_mod::lemma_div_nonincreasing((m + b) as int, b as int);
            vstd::arithmetic::div_mod::lemma_div_pos_is_pos((m + b) as int, b as int);
        }
        let q = (((m as u64) + (b as u64)) / (b as u64)) as i64;
        proof {
            let mb = (m + b) as int;
            let bi = b as int;
            assert(q as int == mb / bi);
            vstd::arithmetic::div_mod::lemma_fundamental_div_mod(mb, bi);
            let s = mb % bi;
            assert(a as int == (-(q as int)) * bi + (bi - s - 1)) by (nonlinear_arith)
                requires
                    mb == bi * (q as int) + s,
                    a as int == -(mb - b) - 1,
                    bi == b as int,
            ;
            vstd::arithmetic::div_mod::lemma_fundamental_div_mod_converse(
                a as int,
                bi,
                -(q as int),
                bi - s - 1,
            );
            vstd::arithmetic::mul::lemma_mul_is_commutative(q as int, bi);
            assert(m * bi >= m) by (nonlinear_arith)
                requires
                    1 <= bi,
                    0 <= m,
            ;
            assert((m + 1) * bi == m * bi + bi) by (nonlinear_arith);
            assert((q as int) * bi <= (m + 1) * bi);
            vstd::arithmetic::mul::lemma_mul_inequality_converse(q as int, (m + 1) as int, bi);
        }
        -q
    }
}

/// The car-following acceleration of the driving model: keep a cushion of
/// `min_cushion` plus `cushion_velocity_factor` per unit of the obstacle's
/// speed, and close the remaining gap over the prediction horizon.
pub open spec fn spec_driver_acceleration(
    velocity: int,
    driving_model: DrivingModel,
    front_distance: int,
    front_velocity: int,
) -> int {
    match driving_model {
        DrivingModel::Normal { min_cushion, cushion_velocity_factor, prediction_time } => {
            let aim_cushion = min_cushion + cushion_velocity_factor * front_velocity;
            let dx = front_distance - aim_cushion;
            let aim_average_velocity = dx / (prediction_time as int);
            (aim_average_velocity + front_velocity - velocity) * 2 / (prediction_time as int)
        },
    }
}

impl UpdateController {
    /// The acceleration the driving model asks for toward one obstacle.
    pub fn driver_acceleration(
        velocity: i64,
        _acceleration: i64,
        driving_model: &DrivingModel,
        front_distance: i64,
        front_velocity: i64,
    ) -> (r: i64)
        requires
            driving_model.wf(),
            0 <= velocity <= VELOCITY_LIMIT,
            -2 * QUANTITY_LIMIT <= front_distance <= 2 * QUANTITY_LIMIT,
            0 <= front_velocity <= VELOCITY_LIMIT,
        ensures
            r == spec_driver_acceleration(
                velocity as int,
                *driving_model,
                front_distance as int,
                front_velocity as int,
            ),
    {
        match driving_model {
            DrivingModel::Normal { min_cushion, cushion_velocity_factor, prediction_time } => {
                proof {
                    assert(*cushion_velocity_factor * front_velocity
                        <= 1_000_000 * 500_001_000_000 && *cushion_velocity_factor
                        * front_velocity >= 0) by (nonlinear_arith)
                        requires
                            0 <= *cushion_velocity_factor <= 1_000_000,
                            0 <= front_velocity <= 500_001_000_000,
                    ;
                }
                let aim_cushion = *min_cushion + *cushion_velocity_factor * front_velocity;
                let dx = front_distance - aim_cushion;
                let aim_average_velocity = div_quantity(dx, *prediction_time);
                let gap = aim_average_velocity + front_velocity - velocity;
                let num = gap * 2;
                div_quantity(num, *prediction_time)
            },
        }
    }
}

/// The car-following acceleration never grows when the obstacle comes
/// closer, its speed held fixed.
pub proof fn lemma_driver_acceleration_monotonic(
    velocity: int,
    driving_model: DrivingModel,
    d1: int,
    d2: int,
    front_velocity: int,
)
    requires
        driving_model.wf(),
        d2 <= d1,
    ensures
        spec_driver_acceleration(velocity, driving_model, d2, front_velocity)
            <= spec_driver_acceleration(velocity, driving_model, d1, front_velocity),
{
    match driving_model {
        DrivingModel::Normal { min_cushion, cushion_velocity_factor, prediction_time } => {
            let aim_cushion = min_cushion + cushion_velocity_factor * front_velocity;
            let t = prediction_time as int;
            vstd::arithmetic::div_mod::lemma_div_is_ordered(
                d2 - aim_cushion,
                d1 - aim_cushion,
                t,
            );
            let a2 = (d2 - aim_cushion) / t + front_velocity - velocity;
            let a1 = (d1 - aim_cushion) / t + front_velocity - velocity;
            vstd::arithmetic::div_mod::lemma_div_is_ordered(a2 * 2, a1 * 2, t);
        },
    }
}

/// A driver matching the target average speed plus the obstacle's speed
/// asks for no acceleration; conversely, zero acceleration means the
/// mismatch is below half a prediction horizon.
pub proof fn lemma_driver_acceleration_zero(
    velocity: int,
    driving_model: DrivingModel,
    front_distance: int,
    front_velocity: int,
)
    requires
        driving_model.wf(),
    ensures
        ({
            let aim = spec_aim_average_velocity(driving_model, front_distance, front_velocity);
            &&& (velocity == aim + front_velocity ==> spec_driver_acceleration(
                velocity,
                driving_model,
                front_distance,
                front_velocity,
            ) == 0)
            &&& (spec_driver_acceleration(velocity, driving_model, front_distance, front_velocity)
                == 0 ==> 0 <= 2 * (aim + front_velocity - velocity)
                < spec_prediction_time(driving_model))
        }),
{
    match driving_model {
        DrivingModel::Normal { min_cushion, cushion_velocity_factor, prediction_time } => {
            let aim_cushion = min_cushion + cushion_velocity_factor * front_velocity;
            let t = prediction_time as int;
            let gap = (front_distance - aim_cushion) / t + front_velocity - velocity;
            if velocity == (front_distance - aim_cushion) / t + front_velocity {
                assert(gap * 2 == 0);
                assert(0int / t == 0) by {
                    vstd::arithmetic::div_mod::lemma_small_div_converse(0, t);
                }
            }
            if (gap * 2) / t == 0 {
                vstd::arithmetic::div_mod::lemma_fundamental_div_mod(gap * 2, t);
            }
        },
    }
}

/// The target average velocity toward one obstacle.
pub open spec fn spec_aim_average_velocity(
    driving_model: DrivingModel,
    front_distance: int,
    front_velocity: int,
) -> int {
    match driving_model {
        DrivingModel::Normal { min_cushion, cushion_velocity_factor, prediction_time } => (
        front_distance - (min_cushion + cushion_velocity_factor * front_velocity)) / (
        prediction_time as int),
    }
}

pub open spec fn spec_prediction_time(driving_model: DrivingModel) -> int {
    match driving_model {
        DrivingModel::Normal { prediction_time, .. } => prediction_time as int,
    }
}


/// One signal switch step: count `dt` off the remaining time (saturating
/// at the integer floor) and, on crossing zero, advance both indices
/// modulo their list lengths and add the new phase's duration.
pub open spec fn spec_advance_switch(
    sw: stateful::SwitchState,
    times: Seq<i64>,
    rules_len: int,
    dt: i64,
) -> stateful::SwitchState
    recommends
        times.len() >= 1,
        rules_len >= 1,
{
    let stateful::SwitchState::LoopTimeout { remain_time, time_index, rule_index } = sw;
    let base = if remain_time - dt >= i64::MIN {
        remain_time - dt
    } else {
        i64::MIN as int
    };
    if base < 0 {
        let new_ti = ((time_index + 1) as int % times.len() as int) as usize;
        let new_ri = ((rule_index + 1) as int % rules_len) as usize;
        stateful::SwitchState::LoopTimeout {
            remain_time: (base + times[new_ti as int]) as i64,
            time_index: new_ti,
            rule_index: new_ri,
        }
    } else {
        stateful::SwitchState::LoopTimeout {
            remain_time: base as i64,
            time_index,
            rule_index,
        }
    }
}

/// One intersection's step: signal kinds advance their switch state and
/// recompute the cached rules; pass-through kinds are unchanged.
pub open spec fn spec_intersection_step(
    sf: stateful::Intersection,
    sl: &stateless::Intersection,
    dt: i64,
) -> stateful::Intersection {
    match (sf, sl) {
        (
            stateful::Intersection::Crossroad { current, switch_state },
            stateless::Intersection::Crossroad { rules, switch_rule, .. },
        ) => {
            let sw = spec_advance_switch(switch_state, switch_rule.spec_times(), rules.len() as int, dt);
            stateful::Intersection::Crossroad {
                current: stateful::Intersection::spec_current_for(sw, sl),
                switch_state: sw,
            }
        },
        (
            stateful::Intersection::TJunction { current, switch_state },
            stateless::Intersection::TJunction { rule_set, switch_rule, .. },
        ) => {
            let sw = spec_advance_switch(
                switch_state,
                switch_rule.spec_times(),
                rule_set.len() as int,
                dt,
            );
            stateful::Intersection::TJunction {
                current: stateful::Intersection::spec_current_for(sw, sl),
                switch_state: sw,
            }
        },
        _ => sf,
    }
}

impl UpdateController {
    /// Advance one intersection's switch state by `dt`: on timeout both
    /// indices cycle and the remaining time is reset by the new phase's
    /// duration.  The cached rules are not touched here.
    pub fn update_intersection(
        &self,
        sf: &mut stateful::Intersection,
        sl: &stateless::Intersection,
        dt: i64,
    ) -> (r: Result<(), KindMismatch>)
        requires
            0 <= dt <= QUANTITY_LIMIT,
            sl.wf(),
            old(sf).wf(),
        ensures
            r is Ok <==> (old(sf).matches_stateless(sl) || !((*old(sf)) is Crossroad || (*old(
                sf,
            )) is TJunction)),
            r is Err ==> *final(sf) == *old(sf),
            match (*old(sf), r) {
                (stateful::Intersection::Crossroad { current, switch_state }, Result::Ok(_)) => {
                    let times = (sl->Crossroad_switch_rule).spec_times();
                    *final(sf) == (stateful::Intersection::Crossroad {
                        current,
                        switch_state: spec_advance_switch(
                            switch_state,
                            times,
                            (sl->Crossroad_rules).len() as int,
                            dt,
                        ),
                    })
                },
                (stateful::Intersection::TJunction { current, switch_state }, Result::Ok(_)) => {
                    let times = (sl->TJunction_switch_rule).spec_times();
                    *final(sf) == (stateful::Intersection::TJunction {
                        current,
                        switch_state: spec_advance_switch(
                            switch_state,
                            times,
                            (sl->TJunction_rule_set).len() as int,
                            dt,
                        ),
                    })
                },
                (_, Result::Ok(_)) => *final(sf) == *old(sf),
                (_, Result::Err(_)) => true,
            },
            r is Ok ==> final(sf).wf() && final(sf).matches_stateless(sl) == old(
                sf,
            ).matches_stateless(sl),
    {
        match sf {
            stateful::Intersection::Crossroad { current: _, switch_state } => {
                match sl {
                    stateless::Intersection::Crossroad { rules, switch_rule, .. } => {
                        let stateless::intersection::SwitchRule::LoopTimeout { times } =
                            switch_rule;
                        let stateful::SwitchState::LoopTimeout {
                            remain_time,
                            time_index,
                            rule_index,
                        } = *switch_state;
                        if rule_index < rules.len() && time_index < times.len() {
                            *switch_state = advance_switch(
                                remain_time,
                                time_index,
                                rule_index,
                                times,
                                rules.len(),
                                dt,
                            );
                            Ok(())
                        } else {
                            Err(KindMismatch)
                        }
                    },
                    _ => Err(KindMismatch),
                }
            },
            stateful::Intersection::TJunction { current: _, switch_state } => {
                match sl {
                    stateless::Intersection::TJunction { rule_set, switch_rule, .. } => {
                        let stateless::intersection::SwitchRule::LoopTimeout { times } =
                            switch_rule;
                        let stateful::SwitchState::LoopTimeout {
                            remain_time,
                            time_index,
                            rule_index,
                        } = *switch_state;
                        if rule_index < rule_set.len() && time_index < times.len() {
                            *switch_state = advance_switch(
                                remain_time,
                                time_index,
                                rule_index,
                                times,
                                rule_set.len(),
                                dt,
                            );
                            Ok(())
                        } else {
                            Err(KindMismatch)
                        }
                    },
                    _ => Err(KindMismatch),
                }
            },
            _ => Ok(()),
        }
    }
}

/// The executable switch step shared by both signal kinds.
fn advance_switch(
    remain_time: i64,
    time_index: usize,
    rule_index: usize,
    times: &Vec<i64>,
    rules_len: usize,
    dt: i64,
) -> (r: stateful::SwitchState)
    requires
        0 <= dt <= QUANTITY_LIMIT,
        remain_time <= QUANTITY_LIMIT,
        times.len() >= 1,
        rules_len >= 1,
        time_index < times.len(),
        rule_index < rules_len,
        forall|i: int| 0 <= i < times.len() ==> 0 <= #[trigger] times[i] <= QUANTITY_LIMIT,
    ensures
        r == spec_advance_switch(
            stateful::SwitchState::LoopTimeout { remain_time, time_index, rule_index },
            times@,
            rules_len as int,
            dt,
        ),
        r.wf(),
        r.spec_time_index() < times.len(),
        r.spec_rule_index() < rules_len,
{
    let base = if remain_time >= i64::MIN + dt {
        remain_time - dt
    } else {
        i64::MIN
    };
    if base < 0 {
        let new_ti = (time_index + 1) % times.len();
        let new_ri = (rule_index + 1) % rules_len;
        stateful::SwitchState::LoopTimeout {
            remain_time: base + times[new_ti],
            time_index: new_ti,
            rule_index: new_ri,
        }
    } else {
        stateful::SwitchState::LoopTimeout {
            remain_time: base,
            time_index,
            rule_index,
        }
    }
}


impl UpdateController {
    /// The coordinator's city step: advance every stateful intersection's
    /// switch state by `dt` and recompute its cached rules.  Cell by cell
    /// the result is exactly `spec_intersection_step`, and the pairing
    /// invariant is preserved.
    #[verifier::rlimit(100)]
    #[verifier::spinoff_prover]
    pub fn update_city(
        &self,
        sf: &mut stateful::City,
        sl: &stateless::City,
        dt: i64,
    )
        requires
            0 <= dt <= QUANTITY_LIMIT,
            sl.board.wf(),
            sl.wf_intersections(),
            crate::model::wf_city_pair(sl, old(sf)),
        ensures
            crate::model::wf_city_pair(sl, final(sf)),
            final(sf).board.intersections.shape == old(sf).board.intersections.shape,
            final(sf).board.horizontal_roads == old(sf).board.horizontal_roads,
            final(sf).board.vertical_roads == old(sf).board.vertical_roads,
            forall|i: int, j: int|
                #[trigger] final(sf).board.intersections.in_bounds(i, j)
                    ==> final(sf).board.intersections.spec_at(i, j) == (match (
                    sl.board.intersections.spec_at(i, j),
                    old(sf).board.intersections.spec_at(i, j),
                ) {
                    (Some(sl_int), Some(sf_int)) => Some(spec_intersection_step(sf_int, &sl_int, dt)),
                    _ => old(sf).board.intersections.spec_at(i, j),
                }),
    {
        let ghost old_board = old(sf).board;
        let n_cells = sf.board.intersections.storage.len();
        let ghost ncols = sf.board.intersections.shape.1;
        let mut k: usize = 0;
        while k < n_cells
            invariant
                0 <= dt <= QUANTITY_LIMIT,
                sl.board.wf(),
                sl.wf_intersections(),
                crate::model::wf_city_pair(sl, old(sf)),
                sf.board.intersections.shape == old(sf).board.intersections.shape,
                sf.board.horizontal_roads == old(sf).board.horizontal_roads,
                sf.board.vertical_roads == old(sf).board.vertical_roads,
                n_cells == sf.board.intersections.storage.len(),
                n_cells == old(sf).board.intersections.storage.len(),
                sl.board.intersections.storage.len() >= n_cells,
                k <= n_cells,
                forall|t: int|
                    k <= t < n_cells ==> #[trigger] sf.board.intersections.storage[t] == old(
                        sf,
                    ).board.intersections.storage[t],
                forall|t: int|
                    0 <= t < k ==> #[trigger] sf.board.intersections.storage[t] == (match (
                        sl.board.intersections.storage[t],
                        old(sf).board.intersections.storage[t],
                    ) {
                        (Some(sl_int), Some(sf_int)) => Some(
                            spec_intersection_step(sf_int, &sl_int, dt),
                        ),
                        _ => old(sf).board.intersections.storage[t],
                    }),
                forall|t: int|
                    0 <= t < k ==> (match (
                        sl.board.intersections.storage[t],
                        #[trigger] sf.board.intersections.storage[t],
                    ) {
                        (Some(sl_int), Some(sf_int)) => sf_int.matches_stateless(&sl_int)
                            && sf_int.wf(),
                        (None, None) => true,
                        _ => false,
                    }),
            decreases n_cells - k,
        {
            proof {
                let m = old(sf).board.intersections.shape.0;
                let n = old(sf).board.intersections.shape.1;
                vstd::arithmetic::div_mod::lemma_fundamental_div_mod(k as int, n as int);
                assert((k as int) / (n as int) < m) by (nonlinear_arith)
                    requires
                        n >= 1,
                        k < m * n,
                        k as int == n * ((k as int) / (n as int)) + (k as int) % (n as int),
                        0 <= (k as int) % (n as int) < n,
                ;
                crate::util::matrix::lemma_row_major_offset(
                    (k as int) / (n as int),
                    (k as int) % (n as int),
                    m as int,
                    n as int,
                );
                assert(old(sf).board.intersections.in_bounds(
                    (k as int) / (n as int),
                    (k as int) % (n as int),
                ));
            }
            let ghost i0 = (k as int) / (old(sf).board.intersections.shape.1 as int);
            let ghost j0 = (k as int) % (old(sf).board.intersections.shape.1 as int);
            let sl_cell = &sl.board.intersections.storage[k];
            let cell = &mut sf.board.intersections.storage[k];
            match cell {
                Some(sf_int) => {
                    match sl_cell {
                        Some(sl_int) => {
                            proof {
                                vstd::arithmetic::div_mod::lemma_fundamental_div_mod(
                                    k as int,
                                    old(sf).board.intersections.shape.1 as int,
                                );
                                vstd::arithmetic::mul::lemma_mul_is_commutative(
                                    i0,
                                    old(sf).board.intersections.shape.1 as int,
                                );
                                assert(i0 * (old(sf).board.intersections.shape.1 as int) + j0
                                    == k);
                                assert(old(sf).board.intersections.spec_at(i0, j0)
                                    == old(sf).board.intersections.storage[k as int]);
                                assert(sl.board.intersections.spec_at(i0, j0)
                                    == sl.board.intersections.storage[k as int]);
                                assert(sl.board.intersections.in_bounds(i0, j0));
                            }
                            let step_result = self.update_intersection(sf_int, sl_int, dt);
                            match step_result {
                                Ok(_) => {},
                                Err(_) => {
                                    proof {
                                        assert(false);
                                    }
                                },
                            }
                            let cache_result = sf_int.update_current(sl_int);
                            match cache_result {
                                Ok(_) => {},
                                Err(_) => {
                                    proof {
                                        assert(false);
                                    }
                                },
                            }
                        },
                        None => {
                            proof {
                                assert(false);
                            }
                        },
                    }
                },
                None => {
                    proof {
                        assert(sl.board.intersections.spec_at(i0, j0) is None);
                    }
                },
            }
            k = k + 1;
        }
        proof {
            assert forall|i: int, j: int|
                #[trigger] sf.board.intersections.in_bounds(i, j) implies sf
                .board.intersections.spec_at(i, j) == (match (
                sl.board.intersections.spec_at(i, j),
                old(sf).board.intersections.spec_at(i, j),
            ) {
                (Some(sl_int), Some(sf_int)) => Some(spec_intersection_step(sf_int, &sl_int, dt)),
                _ => old(sf).board.intersections.spec_at(i, j),
            }) by {
                crate::util::matrix::lemma_row_major_offset(
                    i,
                    j,
                    sf.board.intersections.shape.0 as int,
                    sf.board.intersections.shape.1 as int,
                );
            }
            assert forall|i: int, j: int|
                #[trigger] sf.board.intersections.in_bounds(i, j) implies (match (
                sl.board.intersections.spec_at(i, j),
                sf.board.intersections.spec_at(i, j),
            ) {
                (Some(sl_int), Some(sf_int)) => sf_int.matches_stateless(&sl_int) && sf_int.wf(),
                (None, None) => true,
                _ => false,
            }) by {
                crate::util::matrix::lemma_row_major_offset(
                    i,
                    j,
                    sf.board.intersections.shape.0 as int,
                    sf.board.intersections.shape.1 as int,
                );
            }
        }
    }
}


/// The smaller of two quantities.
pub open spec fn spec_min(a: int, b: int) -> int {
    if a < b {
        a
    } else {
        b
    }
}

/// The larger of two quantities.
pub open spec fn spec_max(a: int, b: int) -> int {
    if a > b {
        a
    } else {
        b
    }
}

impl UpdateController {
    /// Draw one permitted relative turn from a rule, uniformly among the
    /// permitted ones; `None` exactly when the rule permits nothing.
    pub fn random_choose_relative_direction(&self, turn_rule: TurnRule) -> (r: Option<
        RelativeDirection,
    >)
        ensures
            r is Some <==> turn_rule.spec_any(),
            match r {
                Some(t) => turn_rule.allows(t),
                None => true,
            },
    {
        let all_rule = [
            RelativeDirection::Front,
            RelativeDirection::Back,
            RelativeDirection::Left,
            RelativeDirection::Right,
        ];
        let mut enabled: Vec<RelativeDirection> = Vec::new();
        let mut k: usize = 0;
        proof {
            assert(all_rule@ =~= seq![
                RelativeDirection::Front,
                RelativeDirection::Back,
                RelativeDirection::Left,
                RelativeDirection::Right,
            ]);
        }
        while k < 4
            invariant
                k <= 4,
                all_rule@ == seq![
                    RelativeDirection::Front,
                    RelativeDirection::Back,
                    RelativeDirection::Left,
                    RelativeDirection::Right,
                ],
                forall|t: int| 0 <= t < enabled.len() ==> turn_rule.allows(#[trigger] enabled[t]),
                forall|t: int|
                    0 <= t < k && turn_rule.allows(#[trigger] all_rule@[t]) ==> enabled@.contains(
                        all_rule@[t],
                    ),
            decreases 4 - k,
        {
            let candidate = all_rule[k];
            if turn_rule.contains_turn(candidate) {
                let ghost eb = enabled@;
                enabled.push(candidate);
                proof {
                    assert(enabled@ == eb.push(candidate));
                    assert(enabled@[enabled@.len() - 1] == candidate);
                    assert forall|t: int|
                        0 <= t < enabled@.len() implies turn_rule.allows(
                        #[trigger] enabled@[t],
                    ) by {
                        if t < enabled@.len() - 1 {
                            assert(enabled@[t] == eb[t]);
                        }
                    }
                    assert forall|t: int|
                        0 <= t < k + 1 && turn_rule.allows(#[trigger] all_rule@[t])
                            implies enabled@.contains(all_rule@[t]) by {
                        if t < k {
                            let w = choose|w: int| 0 <= w < eb.len() && eb[w] == all_rule@[t];
                            assert(enabled@[w] == all_rule@[t]);
                        } else {
                            assert(enabled@[enabled@.len() - 1] == all_rule@[t]);
                        }
                    }
                }
            }
            k = k + 1;
        }
        if enabled.len() == 0 {
            proof {
                assert(!turn_rule.allows(RelativeDirection::Front));
                assert(!turn_rule.allows(RelativeDirection::Back));
                assert(!turn_rule.allows(RelativeDirection::Left));
                assert(!turn_rule.allows(RelativeDirection::Right));
            }
            None
        } else {
            let pick = random_below(enabled.len());
            proof {
                if turn_rule.allows(RelativeDirection::Front) {
                } else if turn_rule.allows(RelativeDirection::Back) {
                } else if turn_rule.allows(RelativeDirection::Left) {
                } else if turn_rule.allows(RelativeDirection::Right) {
                }
            }
            Some(enabled[pick])
        }
    }

    /// The entry right after this vehicle's own entry in its lane's sorted
    /// list: an occupant at the same position or further along.
    pub fn get_front_car(
        &self,
        current_car: CarIndex,
        local_state: &ProcessLocalState,
        road_direction: AxisDirection,
        road_index: crate::model::board::RoadIndex,
        lane_direction: LaneDirection,
        lane_index: LaneIndex,
    ) -> (r: Option<CarIndex>)
        requires
            local_state.board.wf(),
            local_state.board.road_in_bounds(road_direction, road_index),
            local_state.board.spec_road(road_direction, road_index) is Some,
            (lane_index as int) < (local_state.board.spec_road(
                road_direction,
                road_index,
            )->Some_0).spec_lanes(lane_direction).len(),
        ensures
            front_pick_ok(
                local_state,
                road_direction,
                road_index,
                lane_direction,
                lane_index as int,
                current_car,
                r,
            ),
    {
        let roads = local_state.board.get_roads(road_direction);
        let road = match roads.get(road_index) {
            Some(Some(road)) => road,
            _ => {
                proof {
                    assert(false);
                }
                return None;
            },
        };
        let lanes = road.lanes_to_direction(lane_direction);
        let lane = &lanes[lane_index];
        let n = lane.cars.len();
        let mut t: usize = 0;
        while t < n
            invariant
                t <= n == lane.cars.len(),
                lane.cars@ == local_state.lane_entries(
                    road_direction,
                    road_index,
                    lane_direction,
                    lane_index as int,
                ),
                forall|u: int|
                    0 <= u < t && (#[trigger] lane.cars@[u]).1 == current_car ==> u == n - 1,
            decreases n - t,
        {
            let (_, ci) = lane.cars[t];
            if ci == current_car && t + 1 < n {
                let (_, f) = lane.cars[t + 1];
                proof {
                    assert(lane.cars@[t as int].1 == current_car && lane.cars@[t + 1].1 == f);
                }
                return Some(f);
            }
            t = t + 1;
        }
        None
    }
}

/// The first available lane index in one side's availability flags, from
/// `i` on.
pub open spec fn spec_first_available(avail: Seq<bool>, i: int) -> Option<int>
    decreases avail.len() - i when 0 <= i <= avail.len()
{
    if i >= avail.len() {
        None
    } else if avail[i] {
        Some(i)
    } else {
        spec_first_available(avail, i + 1)
    }
}

/// The spawn slot `try_out_car` picks: the first direction (in the fixed
/// enumeration order) with an available outgoing lane, with that lane.
pub open spec fn spec_try_out(
    local_state: &ProcessLocalState,
    city: &stateless::City,
) -> Option<(AxisDirection, crate::model::board::RoadIndex, LaneDirection, int)> {
    let dirs = seq![
        AbsoluteDirection::North,
        AbsoluteDirection::South,
        AbsoluteDirection::East,
        AbsoluteDirection::West,
    ];
    spec_try_out_from(local_state, city, dirs, 0)
}

pub open spec fn spec_try_out_from(
    local_state: &ProcessLocalState,
    city: &stateless::City,
    dirs: Seq<AbsoluteDirection>,
    i: int,
) -> Option<(AxisDirection, crate::model::board::RoadIndex, LaneDirection, int)>
    decreases dirs.len() - i when 0 <= i <= dirs.len()
{
    if i >= dirs.len() {
        None
    } else {
        let d = dirs[i];
        let avail = local_state.car_out_intersection_lane_out_availability.spec_get(d)@;
        let side = city.board.spec_context_side(
            city.car_out_intersection.0 as int,
            city.car_out_intersection.1 as int,
            d,
        );
        match spec_first_available(avail, 0) {
            Some(li) => match side {
                Some(rid) => Some(
                    (
                        crate::model::common::spec_axis_direction(d),
                        rid,
                        crate::model::common::spec_absolute_in_out_to_lane(
                            d,
                            InOutDirection::Out,
                        ),
                        li,
                    ),
                ),
                None => spec_try_out_from(local_state, city, dirs, i + 1),
            },
            None => spec_try_out_from(local_state, city, dirs, i + 1),
        }
    }
}

impl UpdateController {
    /// The spawn slot for this tick: the first available outgoing lane at
    /// the entry intersection, scanning the sides in the fixed order.
    pub fn try_out_car(
        &self,
        local_state: &ProcessLocalState,
        _stateful: &stateful::Model,
        stateless_model: &stateless::Model,
    ) -> (r: Option<(AxisDirection, crate::model::board::RoadIndex, LaneDirection, LaneIndex)>)
        requires
            stateless_model.city.wf_geometry(),
        ensures
            match (r, spec_try_out(local_state, &stateless_model.city)) {
                (Some(got), Some(want)) => got.0 == want.0 && got.1 == want.1 && got.2 == want.2
                    && got.3 == want.3,
                (None, None) => true,
                _ => false,
            },
    {
        let city = &stateless_model.city;
        let context = city.board.context_of_intersection(city.car_out_intersection);
        let directions = AbsoluteDirection::directions();
        let ghost dirs = seq![
            AbsoluteDirection::North,
            AbsoluteDirection::South,
            AbsoluteDirection::East,
            AbsoluteDirection::West,
        ];
        let mut di: usize = 0;
        while di < 4
            invariant
                di <= 4,
                city == &stateless_model.city,
                city.wf_geometry(),
                directions@ == dirs,
                context.north == city.board.spec_context_side(
                    city.car_out_intersection.0 as int,
                    city.car_out_intersection.1 as int,
                    AbsoluteDirection::North,
                ),
                context.south == city.board.spec_context_side(
                    city.car_out_intersection.0 as int,
                    city.car_out_intersection.1 as int,
                    AbsoluteDirection::South,
                ),
                context.east == city.board.spec_context_side(
                    city.car_out_intersection.0 as int,
                    city.car_out_intersection.1 as int,
                    AbsoluteDirection::East,
                ),
                context.west == city.board.spec_context_side(
                    city.car_out_intersection.0 as int,
                    city.car_out_intersection.1 as int,
                    AbsoluteDirection::West,
                ),
                spec_try_out(local_state, city) == spec_try_out_from(
                    local_state,
                    city,
                    dirs,
                    di as int,
                ),
            decreases 4 - di,
        {
            let d = directions[di];
            let avail = local_state.car_out_intersection_lane_out_availability.get(d);
            proof {
                assert(context.spec_get(d) == city.board.spec_context_side(
                    city.car_out_intersection.0 as int,
                    city.car_out_intersection.1 as int,
                    d,
                ));
                assert(dirs[di as int] == d);
            }
            let found = first_available(avail);
            match found {
                Some(f) => {
                    match context.get(d) {
                        Some(rid) => {
                            let out_ld = LaneDirection::absolute_in_out_to_lane(
                                d,
                                InOutDirection::Out,
                            );
                            return Some((d.axis_direction(), *rid, out_ld, f));
                        },
                        None => {},
                    }
                },
                None => {},
            }
            proof {
                assert(spec_try_out_from(local_state, city, dirs, di as int) == spec_try_out_from(
                    local_state,
                    city,
                    dirs,
                    di as int + 1,
                ));
            }
            di = di + 1;
        }
        None
    }
}


/// The first `true` flag, scanning from the front.
fn first_available(avail: &Vec<bool>) -> (r: Option<usize>)
    ensures
        match (r, spec_first_available(avail@, 0)) {
            (Some(a), Some(b)) => a as int == b && a < avail.len(),
            (None, None) => true,
            _ => false,
        },
{
    let mut li: usize = 0;
    while li < avail.len()
        invariant
            li <= avail.len(),
            spec_first_available(avail@, 0) == spec_first_available(avail@, li as int),
        decreases avail.len() - li,
    {
        if avail[li] {
            proof {
                assert(spec_first_available(avail@, li as int) == Some(li as int));
            }
            return Some(li);
        }
        proof {
            assert(spec_first_available(avail@, li as int) == spec_first_available(
                avail@,
                li + 1,
            ));
        }
        li = li + 1;
    }
    proof {
        assert(spec_first_available(avail@, li as int) is None);
    }
    None
}


/// The minimum of two bounded quantities.
fn min_i64(a: i64, b: i64) -> (r: i64)
    ensures
        r == spec_min(a as int, b as int),
{
    if a < b {
        a
    } else {
        b
    }
}

/// The maximum of two bounded quantities.
fn max_i64(a: i64, b: i64) -> (r: i64)
    ensures
        r == spec_max(a as int, b as int),
{
    if a > b {
        a
    } else {
        b
    }
}

/// The next on-lane velocity: the current velocity plus `acceleration *
/// dt`, clamped to `[0, min(vehicle limit, lane limit)]`.
pub open spec fn spec_next_velocity(v: int, a: int, dt: int, vehicle_max: int, lane_max: int)
    -> int {
    spec_max(0, spec_min(v + a * dt, spec_min(vehicle_max, lane_max)))
}

/// The speed of the stop-or-proceed object at the end of a lane: the
/// intersection's speed limit where the current signal permits this
/// vehicle's queued turn (or the kind imposes no signal), and zero where
/// the signal forbids it.  A `Straight` pass-through carries the lane's
/// own limit.
pub open spec fn spec_object_speed(
    sl_int: &stateless::Intersection,
    sf_int: stateful::Intersection,
    from_direction: AbsoluteDirection,
    about_to_turn: RelativeDirection,
    lane_max: i64,
) -> int {
    match (sl_int, sf_int) {
        (
            stateless::Intersection::Crossroad { max_speed, .. },
            stateful::Intersection::Crossroad { current, .. },
        ) => if current.spec_get(from_direction).allows(about_to_turn) {
            *max_speed as int
        } else {
            0
        },
        (
            stateless::Intersection::TJunction { max_speed, .. },
            stateful::Intersection::TJunction { current, .. },
        ) => if current.spec_get(from_direction).allows(about_to_turn) {
            *max_speed as int
        } else {
            0
        },
        (stateless::Intersection::Turn { max_speed }, _) => *max_speed as int,
        (stateless::Intersection::Straight, _) => lane_max as int,
        (stateless::Intersection::End { max_speed }, _) => *max_speed as int,
        _ => 0,
    }
}

/// `front` is the pick of the vehicle ahead: the occupant right after
/// this vehicle's own entry in the lane's sorted list, and none exactly
/// when the vehicle is absent from the list or is its last entry.
pub open spec fn front_pick_ok(
    local_state: &ProcessLocalState,
    rd: AxisDirection,
    ri: crate::model::board::RoadIndex,
    ld: LaneDirection,
    li: int,
    car_index: CarIndex,
    front: Option<CarIndex>,
) -> bool {
    let entries = local_state.lane_entries(rd, ri, ld, li);
    match front {
        None => front_none_ok(entries, car_index),
        Some(f) => exists|t: int|
            0 <= t < entries.len() - 1 && (#[trigger] entries[t]).1 == car_index && entries[t
                + 1].1 == f,
    }
}

/// The vehicle has no successor entry: every occurrence of its index in
/// the lane list (if any) is the last entry.
pub open spec fn front_none_ok(entries: Seq<(i64, CarIndex)>, car_index: CarIndex) -> bool {
    forall|t: int|
        0 <= t < entries.len() && (#[trigger] entries[t]).1 == car_index ==> t == entries.len()
            - 1
}

/// The acceleration an on-lane vehicle settles on: the least of the
/// car-following accelerations toward the vehicle ahead (if any) and
/// toward the intersection's stop-or-proceed point, clamped to the
/// vehicle's braking and acceleration limits.
pub open spec fn spec_on_lane_acceleration(
    v: int,
    sl_car: stateless::Car,
    road_len: int,
    position: int,
    obj_speed: int,
    front: Option<(int, int)>,
) -> int {
    let a_int = spec_driver_acceleration(v, sl_car.driving_model, road_len - position, obj_speed);
    let a = match front {
        None => a_int,
        Some((fp, fv)) => spec_min(
            a_int,
            spec_driver_acceleration(v, sl_car.driving_model, fp - position, fv),
        ),
    };
    spec_max(-sl_car.max_break_acceleration as int, spec_min(a, sl_car.max_acceleration as int))
}

/// The road a vehicle travels on lies on the side of its target
/// intersection opposite to its heading.
pub proof fn lemma_back_side_road(
    city: &stateless::City,
    rd: AxisDirection,
    ri: crate::model::board::RoadIndex,
    ld: LaneDirection,
)
    requires
        city.board.wf(),
        city.board.road_in_bounds(rd, ri),
        city.board.spec_road(rd, ri) is Some,
    ensures
        ({
            let x = crate::model::board::spec_lane_to_intersection(rd, ri, ld);
            let from = crate::model::common::spec_turn_back(
                crate::model::common::spec_of_lane(rd, ld),
            );
            &&& city.board.spec_context_side(x.0 as int, x.1 as int, from) == Some(ri)
            &&& crate::model::common::spec_absolute_in_out_to_lane(from, InOutDirection::In)
                == ld
            &&& crate::model::common::spec_axis_direction(from) == rd
            &&& x.0 < city.board.spec_m() && x.1 < city.board.spec_n()
        }),
{
    let x = crate::model::board::spec_lane_to_intersection(rd, ri, ld);
    let from = crate::model::common::spec_turn_back(crate::model::common::spec_of_lane(rd, ld));
    match (rd, ld) {
        (AxisDirection::Horizontal, LaneDirection::LowToHigh) => {
            assert(from == AbsoluteDirection::East);
            assert(city.board.spec_neighbour_slot(x.0 as int, x.1 as int, from) == Some(
                (AxisDirection::Horizontal, ri),
            ));
        },
        (AxisDirection::Horizontal, LaneDirection::HighToLow) => {
            assert(from == AbsoluteDirection::West);
            assert(x.1 == ri.1 + 1);
            assert(city.board.spec_neighbour_slot(x.0 as int, x.1 as int, from) == Some(
                (AxisDirection::Horizontal, ri),
            ));
        },
        (AxisDirection::Vertical, LaneDirection::LowToHigh) => {
            assert(from == AbsoluteDirection::North);
            assert(x.0 == ri.0 + 1);
            assert(city.board.spec_neighbour_slot(x.0 as int, x.1 as int, from) == Some(
                (AxisDirection::Vertical, ri),
            ));
        },
        (AxisDirection::Vertical, LaneDirection::HighToLow) => {
            assert(from == AbsoluteDirection::South);
            assert(city.board.spec_neighbour_slot(x.0 as int, x.1 as int, from) == Some(
                (AxisDirection::Vertical, ri),
            ));
        },
    }
}


/// What `update_car` may return for the slot at `car_index`, given the
/// random draws it is permitted to make.
pub open spec fn car_step_ok(
    controller: UpdateController,
    rank: usize,
    outed_before: bool,
    local_state: &ProcessLocalState,
    sf_model: &stateful::Model,
    sl_model: &stateless::Model,
    car_index: CarIndex,
    dt: i64,
    r: Option<stateful::Car>,
) -> bool {
    let city = &sl_model.city;
    let cars = sf_model.cars@;
    match cars[car_index as int] {
        None => spawn_step_ok(controller, rank, outed_before, local_state, city, r),
        Some(car) => match car.location {
            stateful::Location::OnLane {
                road_direction,
                road_index,
                lane_direction,
                lane_index,
                about_to_turn,
                position,
            } => {
                let road_len = city.spec_road_length(road_direction, road_index) as int;
                let new_pos = position + car.velocity * dt;
                if new_pos >= road_len {
                    on_lane_transition_ok(city, car, r)
                } else {
                    on_lane_stay_ok(local_state, sf_model, sl_model, car_index, car, dt, r)
                }
            },
            stateful::Location::InIntersection { .. } => in_intersection_step_ok(
                city,
                car,
                dt,
                r,
            ),
            stateful::Location::ChangingLane { .. } => true,
        },
    }
}

/// A spawn attempt: only the worker holding the spawn turn may create a
/// vehicle, at the first available spawn lane, with a queued turn drawn
/// from that lane's rule; an empty rule leaves the slot empty.
pub open spec fn spawn_step_ok(
    controller: UpdateController,
    rank: usize,
    outed_before: bool,
    local_state: &ProcessLocalState,
    city: &stateless::City,
    r: Option<stateful::Car>,
) -> bool {
    if rank != controller.car_out_rank || outed_before {
        r is None
    } else {
        match spec_try_out(local_state, city) {
            None => r is None,
            Some((rd, ri, ld, li)) => {
                let rule =
                    (city.board.spec_road(rd, ri)->Some_0).spec_lanes(ld)[li].direction_rule;
                &&& (r is Some <==> rule.spec_any())
                &&& match r {
                    Some(c) => c.velocity == 0 && c.acceleration == 0 && (match c.location {
                        stateful::Location::OnLane {
                            road_direction,
                            road_index,
                            lane_direction,
                            lane_index,
                            about_to_turn,
                            position,
                        } => road_direction == rd && road_index == ri && lane_direction == ld
                            && lane_index == li && position == 0 && rule.allows(about_to_turn),
                        _ => false,
                    }),
                    None => true,
                }
            },
        }
    }
}

/// A lane-end transition: the vehicle enters the intersection its heading
/// points to, from the side it arrived on, toward the side its queued
/// turn picks, onto some lane of the destination road; the path length is
/// the rounded distance between the two join points.
pub open spec fn on_lane_transition_ok(
    city: &stateless::City,
    car: stateful::Car,
    r: Option<stateful::Car>,
) -> bool {
    match car.location {
        stateful::Location::OnLane {
            road_direction,
            road_index,
            lane_direction,
            lane_index,
            about_to_turn,
            position: _,
        } => {
            let x = crate::model::board::spec_lane_to_intersection(
                road_direction,
                road_index,
                lane_direction,
            );
            let heading = crate::model::common::spec_of_lane(road_direction, lane_direction);
            match r {
                Some(c) => c.velocity == car.velocity && c.acceleration == 0 && (
                match c.location {
                    stateful::Location::InIntersection {
                        intersection_index,
                        from_direction,
                        from_lane_index,
                        to_direction,
                        to_lane_index,
                        total_length,
                        position,
                    } => {
                        &&& intersection_index == x
                        &&& from_direction == crate::model::common::spec_turn_back(heading)
                        &&& from_lane_index == lane_index
                        &&& to_direction == crate::model::common::spec_turn(
                            heading,
                            about_to_turn,
                        )
                        &&& position == 0
                        &&& (match city.spec_join_position(
                            x,
                            from_direction,
                            InOutDirection::In,
                            from_lane_index as int,
                        ) {
                            Some(from_join) => match city.spec_join_position(
                                x,
                                to_direction,
                                InOutDirection::Out,
                                to_lane_index as int,
                            ) {
                                Some(to_join) => crate::model::common::is_isqrt(
                                    total_length as int,
                                    (from_join.x - to_join.x) * (from_join.x - to_join.x) + (
                                    from_join.y - to_join.y) * (from_join.y - to_join.y),
                                ),
                                None => false,
                            },
                            None => false,
                        })
                    },
                    _ => false,
                }),
                None => false,
            }
        },
        _ => false,
    }
}

/// A within-lane step: the position advances by the old velocity, the
/// velocity follows the clamped kinematics, and the acceleration is the
/// clamped least car-following demand toward the obstacles ahead, for
/// some admissible pick of the vehicle ahead.
pub open spec fn on_lane_stay_ok(
    local_state: &ProcessLocalState,
    sf_model: &stateful::Model,
    sl_model: &stateless::Model,
    car_index: CarIndex,
    car: stateful::Car,
    dt: i64,
    r: Option<stateful::Car>,
) -> bool {
    let city = &sl_model.city;
    let cars = sf_model.cars@;
    match car.location {
        stateful::Location::OnLane {
            road_direction,
            road_index,
            lane_direction,
            lane_index,
            about_to_turn,
            position,
        } => {
            let road_len = city.spec_road_length(road_direction, road_index) as int;
            let lane = (city.board.spec_road(road_direction, road_index)->Some_0).spec_lanes(
                lane_direction,
            )[lane_index as int];
            let sl_car = sl_model.cars[car_index as int];
            let x = crate::model::board::spec_lane_to_intersection(
                road_direction,
                road_index,
                lane_direction,
            );
            let sl_int = city.board.intersections.spec_at(x.0 as int, x.1 as int)->Some_0;
            let sf_int = sf_model.city.board.intersections.spec_at(
                x.0 as int,
                x.1 as int,
            )->Some_0;
            let from = crate::model::common::spec_turn_back(
                crate::model::common::spec_of_lane(road_direction, lane_direction),
            );
            let obj_speed = spec_object_speed(&sl_int, sf_int, from, about_to_turn, lane.max_speed);
            exists|front: Option<CarIndex>|
                {
                    &&& #[trigger] front_pick_ok(
                        local_state,
                        road_direction,
                        road_index,
                        lane_direction,
                        lane_index as int,
                        car_index,
                        front,
                    )
                    &&& r matches Some(c) && c == (stateful::Car {
                        location: stateful::Location::OnLane {
                            road_direction,
                            road_index,
                            lane_direction,
                            lane_index,
                            about_to_turn,
                            position: (position + car.velocity * dt) as i64,
                        },
                        velocity: spec_next_velocity(
                            car.velocity as int,
                            car.acceleration as int,
                            dt as int,
                            sl_car.max_velocity as int,
                            lane.max_speed as int,
                        ) as i64,
                        acceleration: spec_on_lane_acceleration(
                            car.velocity as int,
                            sl_car,
                            road_len,
                            position as int,
                            obj_speed,
                            match front {
                                None => None,
                                Some(f) => Some(
                                    (
                                        lane_position(cars, f as int) as int,
                                        (cars[f as int]->Some_0).velocity as int,
                                    ),
                                ),
                            },
                        ) as i64,
                    })
                }
        },
        _ => false,
    }
}

/// An in-intersection step: the vehicle accelerates toward the
/// intersection's speed limit and advances; on reaching the path's end it
/// leaves onto its exit lane with a fresh turn drawn from that lane's
/// rule, or is removed when the rule permits nothing.
pub open spec fn in_intersection_step_ok(
    city: &stateless::City,
    car: stateful::Car,
    dt: i64,
    r: Option<stateful::Car>,
) -> bool {
    match car.location {
        stateful::Location::InIntersection {
            intersection_index,
            from_direction: _,
            from_lane_index: _,
            to_direction,
            to_lane_index,
            total_length,
            position,
        } => {
            let sl_int = city.board.intersections.spec_at(
                intersection_index.0 as int,
                intersection_index.1 as int,
            )->Some_0;
            let v2 = spec_inside_velocity(car.velocity as int, sl_int.spec_max_speed(), dt as int);
            let new_pos = position + car.velocity * dt;
            if new_pos >= total_length {
                let rid = city.board.spec_context_side(
                    intersection_index.0 as int,
                    intersection_index.1 as int,
                    to_direction,
                )->Some_0;
                let out_ld = crate::model::common::spec_absolute_in_out_to_lane(
                    to_direction,
                    InOutDirection::Out,
                );
                let out_axis = crate::model::common::spec_axis_direction(to_direction);
                let rule = (city.board.spec_road(out_axis, rid)->Some_0).spec_lanes(
                    out_ld,
                )[to_lane_index as int].direction_rule;
                &&& (r is Some <==> rule.spec_any())
                &&& match r {
                    Some(c) => c.velocity == v2 && c.acceleration == 0 && (match c.location {
                        stateful::Location::OnLane {
                            road_direction,
                            road_index,
                            lane_direction,
                            lane_index,
                            about_to_turn,
                            position,
                        } => road_direction == out_axis && road_index == rid && lane_direction
                            == out_ld && lane_index == to_lane_index && position == 0
                            && rule.allows(about_to_turn),
                        _ => false,
                    }),
                    None => true,
                }
            } else {
                r matches Some(c) && c == (stateful::Car {
                    location: stateful::Location::InIntersection {
                        intersection_index,
                        from_direction: car.location->InIntersection_from_direction,
                        from_lane_index: car.location->InIntersection_from_lane_index,
                        to_direction,
                        to_lane_index,
                        total_length,
                        position: new_pos as i64,
                    },
                    velocity: v2 as i64,
                    acceleration: 0,
                })
            }
        },
        _ => false,
    }
}

/// The velocity inside an intersection: half the gap to the speed limit
/// is closed per unit time while below it.
pub open spec fn spec_inside_velocity(v: int, max_speed: Option<i64>, dt: int) -> int {
    match max_speed {
        Some(ms) => if v < ms {
            v + ((ms - v) * dt) / 2
        } else {
            v
        },
        None => v,
    }
}


/// The model pair around one tick is well formed.
pub open spec fn wf_models(sl_model: &stateless::Model, sf_model: &stateful::Model) -> bool {
    &&& sl_model.city.wf()
    &&& crate::model::wf_city_pair(&sl_model.city, &sf_model.city)
    &&& sf_model.cars.len() == sl_model.cars.len()
    &&& forall|i: int| 0 <= i < sl_model.cars.len() ==> (#[trigger] sl_model.cars[i]).wf()
    &&& forall|i: int|
        0 <= i < sf_model.cars.len() ==> (match #[trigger] sf_model.cars[i] {
            Some(car) => crate::model::wf_car(&sl_model.city, car),
            None => true,
        })
}

impl UpdateController {
    /// The next-tick value of the vehicle slot at `car_index`: empty slots
    /// may spawn (once per tick, on the worker holding the spawn turn),
    /// on-lane vehicles advance and follow the traffic ahead, vehicles
    /// inside an intersection cross it and leave onto their exit lane or
    /// are removed when no turn is permitted there.
    #[verifier::rlimit(100)]
    #[verifier::spinoff_prover]
    pub fn update_car(
        &self,
        outed: &mut bool,
        rank: usize,
        car_index: CarIndex,
        local_state: &ProcessLocalState,
        stateful_model: &stateful::Model,
        stateless_model: &stateless::Model,
        dt: i64,
    ) -> (r: Option<stateful::Car>)
        requires
            wf_models(stateless_model, stateful_model),
            local_state.matches_city(&stateless_model.city),
            local_state.reflects(&stateless_model.city, stateful_model.cars@),
            local_state.reflects_availability(&stateless_model.city, stateful_model.cars@),
            car_index < stateful_model.cars.len(),
            0 <= dt <= QUANTITY_LIMIT,
        ensures
            *final(outed) == (*old(outed) || (stateful_model.cars@[car_index as int] is None
                && rank == self.car_out_rank)),
            car_step_ok(
                *self,
                rank,
                *old(outed),
                local_state,
                stateful_model,
                stateless_model,
                car_index,
                dt,
                r,
            ),
            r matches Some(c) ==> crate::model::wf_car(&stateless_model.city, c),
    {
        let city = &stateless_model.city;
        match &stateful_model.cars[car_index] {
            Some(car) => {
                proof {
                    assert(crate::model::wf_car(city, stateful_model.cars@[car_index as int]->Some_0));
                }
                match &car.location {
                    stateful::Location::OnLane {
                        road_direction,
                        road_index,
                        lane_direction,
                        lane_index,
                        about_to_turn,
                        position,
                    } => {
                        let road_len = city.road_length(*road_direction, *road_index);
                        proof {
                            assert(0 <= car.velocity * dt <= 500_001_000_000_000_000)
                                by (nonlinear_arith)
                                requires
                                    0 <= car.velocity <= 500_001_000_000,
                                    0 <= dt <= 1_000_000,
                            ;
                        }
                        let new_pos = *position + car.velocity * dt;
                        if new_pos >= road_len {
                            self.enter_intersection(car, local_state, stateful_model,
                                stateless_model)
                        } else {
                            self.advance_on_lane(car, car_index, new_pos, road_len, local_state,
                                stateful_model, stateless_model, dt)
                        }
                    },
                    stateful::Location::InIntersection { .. } => {
                        self.cross_intersection(car, stateless_model, dt)
                    },
                    stateful::Location::ChangingLane { .. } => {
                        proof {
                            assert(false);
                        }
                        None
                    },
                }
            },
            None => {
                if rank == self.car_out_rank && !*outed {
                    *outed = true;
                    proof {
                        lemma_try_out_lane_exists(local_state, &stateless_model.city,
                            stateful_model.cars@);
                    }
                    match self.try_out_car(local_state, stateful_model, stateless_model) {
                        Some((rd, ri, ld, li)) => self.spawn_car(rd, ri, li, ld, local_state,
                            stateless_model),
                        None => None,
                    }
                } else {
                    None
                }
            },
        }
    }
}


impl UpdateController {
    /// The lane-end transition: pick the destination lane at random among
    /// the exit road's lanes and enter the intersection.
    #[verifier::rlimit(100)]
    #[verifier::spinoff_prover]
    fn enter_intersection(
        &self,
        car: &stateful::Car,
        _local_state: &ProcessLocalState,
        stateful_model: &stateful::Model,
        stateless_model: &stateless::Model,
    ) -> (r: Option<stateful::Car>)
        requires
            stateless_model.city.wf(),
            crate::model::wf_car(&stateless_model.city, *car),
            (car.location is OnLane),
        ensures
            on_lane_transition_ok(&stateless_model.city, *car, r),
            r matches Some(c) ==> crate::model::wf_car(&stateless_model.city, c),
    {
        let city = &stateless_model.city;
        match &car.location {
            stateful::Location::OnLane {
                road_direction,
                road_index,
                lane_direction,
                lane_index,
                about_to_turn,
                position: _,
            } => {
                let x = city.board.lane_to_intersection_index(
                    *road_direction,
                    *road_index,
                    *lane_direction,
                );
                let driver = AbsoluteDirection::of_lane(*road_direction, *lane_direction);
                let to_direction = driver.turn(*about_to_turn);
                let from_direction = driver.turn_back();
                proof {
                    lemma_back_side_road(city, *road_direction, *road_index, *lane_direction);
                    assert(city.lane_rule_allows(
                        *road_direction,
                        *road_index,
                        *lane_direction,
                        *lane_index as int,
                        *about_to_turn,
                    ));
                    assert(city.turn_leads_to_road(
                        *road_direction,
                        *road_index,
                        *lane_direction,
                        *about_to_turn,
                    ));
                }
                let context = city.board.context_of_intersection(x);
                let rid = match context.get(to_direction) {
                    Some(rid) => *rid,
                    None => {
                        proof {
                            assert(false);
                        }
                        return None;
                    },
                };
                let out_ld = LaneDirection::absolute_in_out_to_lane(
                    to_direction,
                    InOutDirection::Out,
                );
                let out_road = match city.board.get_road(to_direction.axis_direction(), rid) {
                    Some(Some(road)) => road,
                    _ => {
                        proof {
                            assert(false);
                        }
                        return None;
                    },
                };
                let out_len = out_road.lanes_to_direction(out_ld).len();
                let to_lane_index = random_below(out_len);
                let total_length = match city.intersection_path_total_length(
                    x,
                    from_direction,
                    *lane_index,
                    to_direction,
                    to_lane_index,
                ) {
                    Some(length) => length,
                    None => {
                        proof {
                            assert(false);
                        }
                        return None;
                    },
                };
                Some(
                    stateful::Car {
                        location: stateful::Location::InIntersection {
                            intersection_index: x,
                            from_direction,
                            from_lane_index: *lane_index,
                            to_direction,
                            to_lane_index,
                            total_length,
                            position: 0,
                        },
                        velocity: car.velocity,
                        acceleration: 0,
                    },
                )
            },
            _ => {
                proof {
                    assert(false);
                }
                None
            },
        }
    }

    /// The within-lane step: advance, clamp the velocity and settle on the
    /// least car-following acceleration toward the obstacles ahead.
    #[verifier::rlimit(100)]
    #[verifier::spinoff_prover]
    fn advance_on_lane(
        &self,
        car: &stateful::Car,
        car_index: CarIndex,
        new_pos: i64,
        road_len: i64,
        local_state: &ProcessLocalState,
        stateful_model: &stateful::Model,
        stateless_model: &stateless::Model,
        dt: i64,
    ) -> (r: Option<stateful::Car>)
        requires
            wf_models(stateless_model, stateful_model),
            local_state.matches_city(&stateless_model.city),
            local_state.reflects(&stateless_model.city, stateful_model.cars@),
            car_index < stateful_model.cars.len(),
            stateful_model.cars@[car_index as int] == Some(*car),
            (car.location is OnLane),
            0 <= dt <= QUANTITY_LIMIT,
            road_len == stateless_model.city.spec_road_length(
                car.location->OnLane_road_direction,
                car.location->OnLane_road_index,
            ),
            new_pos == car.location->OnLane_position + car.velocity * dt,
            new_pos < road_len,
        ensures
            on_lane_stay_ok(
                local_state,
                stateful_model,
                stateless_model,
                car_index,
                *car,
                dt,
                r,
            ),
            r matches Some(c) ==> crate::model::wf_car(&stateless_model.city, c),
    {
        let city = &stateless_model.city;
        match &car.location {
            stateful::Location::OnLane {
                road_direction,
                road_index,
                lane_direction,
                lane_index,
                about_to_turn,
                position,
            } => {
                let road = match city.board.get_road(*road_direction, *road_index) {
                    Some(Some(road)) => road,
                    _ => {
                        proof {
                            assert(false);
                        }
                        return None;
                    },
                };
                let lane = &road.lanes_to_direction(*lane_direction)[*lane_index];
                let sl_car = &stateless_model.cars[car_index];
                proof {
                    assert(sl_car.wf());
                    assert(-1_000_000_000_000 <= car.acceleration * dt <= 1_000_000_000_000)
                        by (nonlinear_arith)
                        requires
                            -1_000_000 <= car.acceleration <= 1_000_000,
                            0 <= dt <= 1_000_000,
                    ;
                }
                let vmax = min_i64(sl_car.max_velocity, lane.max_speed);
                let v2 = max_i64(0, min_i64(car.velocity + car.acceleration * dt, vmax));
                let x = city.board.lane_to_intersection_index(
                    *road_direction,
                    *road_index,
                    *lane_direction,
                );
                proof {
                    lemma_back_side_road(city, *road_direction, *road_index, *lane_direction);
                }
                let sl_int = match city.board.intersections.get(x) {
                    Some(Some(sl_int)) => sl_int,
                    _ => {
                        proof {
                            assert(false);
                        }
                        return None;
                    },
                };
                let sf_int = match stateful_model.city.board.intersections.get(x) {
                    Some(Some(sf_int)) => sf_int,
                    _ => {
                        proof {
                            assert(false);
                        }
                        return None;
                    },
                };
                let from_direction = AbsoluteDirection::of_lane(
                    *road_direction,
                    *lane_direction,
                ).turn_back();
                let obj_speed: i64 = match (sl_int, sf_int) {
                    (
                        stateless::Intersection::Crossroad { max_speed, .. },
                        stateful::Intersection::Crossroad { current, .. },
                    ) => {
                        if current.get(from_direction).contains_turn(*about_to_turn) {
                            *max_speed
                        } else {
                            0
                        }
                    },
                    (
                        stateless::Intersection::TJunction { max_speed, .. },
                        stateful::Intersection::TJunction { current, .. },
                    ) => {
                        if current.get(from_direction).contains_turn(*about_to_turn) {
                            *max_speed
                        } else {
                            0
                        }
                    },
                    (stateless::Intersection::Turn { max_speed }, _) => *max_speed,
                    (stateless::Intersection::Straight, _) => lane.max_speed,
                    (stateless::Intersection::End { max_speed }, _) => *max_speed,
                    _ => {
                        proof {
                            assert(false);
                        }
                        0
                    },
                };
                let a_int = UpdateController::driver_acceleration(
                    car.velocity,
                    car.acceleration,
                    &sl_car.driving_model,
                    road_len - *position,
                    obj_speed,
                );
                let front = self.get_front_car(
                    car_index,
                    local_state,
                    *road_direction,
                    *road_index,
                    *lane_direction,
                    *lane_index,
                );
                let a = match front {
                    None => a_int,
                    Some(f) => {
                        proof {
                            assert(process_local_state::lane_exists(
                                city,
                                *road_direction,
                                *road_index,
                                *lane_direction,
                                *lane_index as int,
                            ));
                            let entries = local_state.lane_entries(
                                *road_direction,
                                *road_index,
                                *lane_direction,
                                *lane_index as int,
                            );
                            let t = choose|t: int|
                                0 <= t < entries.len() - 1 && (#[trigger] entries[t]).1
                                    == car_index && entries[t + 1].1 == f;
                            assert(entries[t + 1].1 == f);
                            assert(occupies(
                                stateful_model.cars@,
                                f as int,
                                *road_direction,
                                *road_index,
                                *lane_direction,
                                *lane_index as int,
                            ));
                            assert(crate::model::wf_car(
                                city,
                                stateful_model.cars@[f as int]->Some_0,
                            ));
                        }
                        let front_car = match &stateful_model.cars[f] {
                            Some(front_car) => front_car,
                            None => {
                                proof {
                                    assert(false);
                                }
                                return None;
                            },
                        };
                        let front_position = match &front_car.location {
                            stateful::Location::OnLane { position, .. } => *position,
                            _ => {
                                proof {
                                    assert(false);
                                }
                                return None;
                            },
                        };
                        let a_front = UpdateController::driver_acceleration(
                            car.velocity,
                            car.acceleration,
                            &sl_car.driving_model,
                            front_position - *position,
                            front_car.velocity,
                        );
                        min_i64(a_int, a_front)
                    },
                };
                let acc = max_i64(
                    -sl_car.max_break_acceleration,
                    min_i64(a, sl_car.max_acceleration),
                );
                let result = Some(
                    stateful::Car {
                        location: stateful::Location::OnLane {
                            road_direction: *road_direction,
                            road_index: *road_index,
                            lane_direction: *lane_direction,
                            lane_index: *lane_index,
                            about_to_turn: *about_to_turn,
                            position: new_pos,
                        },
                        velocity: v2,
                        acceleration: acc,
                    },
                );
                proof {
                    assert(front_pick_ok(
                        local_state,
                        *road_direction,
                        *road_index,
                        *lane_direction,
                        *lane_index as int,
                        car_index,
                        front,
                    ));
                }
                result
            },
            _ => {
                proof {
                    assert(false);
                }
                None
            },
        }
    }

    /// The in-intersection step: accelerate toward the speed limit,
    /// advance, and on reaching the path's end leave onto the exit lane
    /// with a fresh turn, or vanish when its rule permits nothing.
    #[verifier::rlimit(100)]
    #[verifier::spinoff_prover]
    fn cross_intersection(
        &self,
        car: &stateful::Car,
        stateless_model: &stateless::Model,
        dt: i64,
    ) -> (r: Option<stateful::Car>)
        requires
            stateless_model.city.wf(),
            crate::model::wf_car(&stateless_model.city, *car),
            (car.location is InIntersection),
            0 <= dt <= QUANTITY_LIMIT,
        ensures
            in_intersection_step_ok(&stateless_model.city, *car, dt, r),
            r matches Some(c) ==> crate::model::wf_car(&stateless_model.city, c),
    {
        let city = &stateless_model.city;
        match &car.location {
            stateful::Location::InIntersection {
                intersection_index,
                from_direction,
                from_lane_index,
                to_direction,
                to_lane_index,
                total_length,
                position,
            } => {
                let sl_int = match city.board.intersections.get(*intersection_index) {
                    Some(Some(sl_int)) => sl_int,
                    _ => {
                        proof {
                            assert(false);
                        }
                        return None;
                    },
                };
                let max_speed: Option<i64> = match sl_int {
                    stateless::Intersection::Crossroad { max_speed, .. } => Some(*max_speed),
                    stateless::Intersection::TJunction { max_speed, .. } => Some(*max_speed),
                    stateless::Intersection::Turn { max_speed } => Some(*max_speed),
                    stateless::Intersection::Straight => None,
                    stateless::Intersection::End { max_speed } => Some(*max_speed),
                };
                let v2: i64 = match max_speed {
                    Some(ms) => {
                        if car.velocity < ms {
                            proof {
                                assert(0 <= (ms - car.velocity) * dt <= 1_000_000_000_000)
                                    by (nonlinear_arith)
                                    requires
                                        0 <= ms - car.velocity <= 1_000_000,
                                        0 <= dt <= 1_000_000,
                                ;
                            }
                            car.velocity + ((ms - car.velocity) * dt) / 2
                        } else {
                            car.velocity
                        }
                    },
                    None => car.velocity,
                };
                proof {
                    assert(0 <= car.velocity * dt <= 500_001_000_000_000_000)
                        by (nonlinear_arith)
                        requires
                            0 <= car.velocity <= 500_001_000_000,
                            0 <= dt <= 1_000_000,
                    ;
                }
                let new_pos = *position + car.velocity * dt;
                if new_pos >= *total_length {
                    let context = city.board.context_of_intersection(*intersection_index);
                    let rid = match context.get(*to_direction) {
                        Some(rid) => *rid,
                        None => {
                            proof {
                                assert(false);
                            }
                            return None;
                        },
                    };
                    let out_ld = LaneDirection::absolute_in_out_to_lane(
                        *to_direction,
                        InOutDirection::Out,
                    );
                    let out_road = match city.board.get_road(
                        to_direction.axis_direction(),
                        rid,
                    ) {
                        Some(Some(road)) => road,
                        _ => {
                            proof {
                                assert(false);
                            }
                            return None;
                        },
                    };
                    let rule = out_road.lanes_to_direction(out_ld)[*to_lane_index]
                        .direction_rule;
                    match self.random_choose_relative_direction(rule) {
                        Some(about_to_turn) => {
                            proof {
                                assert(city.lane_rule_allows(
                                    crate::model::common::spec_axis_direction(*to_direction),
                                    rid,
                                    out_ld,
                                    *to_lane_index as int,
                                    about_to_turn,
                                ));
                            }
                            Some(
                                stateful::Car {
                                    location: stateful::Location::OnLane {
                                        road_direction: to_direction.axis_direction(),
                                        road_index: rid,
                                        lane_direction: out_ld,
                                        lane_index: *to_lane_index,
                                        about_to_turn,
                                        position: 0,
                                    },
                                    velocity: v2,
                                    acceleration: 0,
                                },
                            )
                        },
                        None => None,
                    }
                } else {
                    Some(
                        stateful::Car {
                            location: stateful::Location::InIntersection {
                                intersection_index: *intersection_index,
                                from_direction: *from_direction,
                                from_lane_index: *from_lane_index,
                                to_direction: *to_direction,
                                to_lane_index: *to_lane_index,
                                total_length: *total_length,
                                position: new_pos,
                            },
                            velocity: v2,
                            acceleration: 0,
                        },
                    )
                }
            },
            _ => {
                proof {
                    assert(false);
                }
                None
            },
        }
    }

    /// The spawn attempt at one chosen spawn lane: create a vehicle at
    /// rest at the lane's start with a turn drawn from its rule, or leave
    /// the slot empty when the rule permits nothing.
    #[verifier::rlimit(100)]
    #[verifier::spinoff_prover]
    fn spawn_car(
        &self,
        rd: AxisDirection,
        ri: crate::model::board::RoadIndex,
        li: LaneIndex,
        ld: LaneDirection,
        local_state: &ProcessLocalState,
        stateless_model: &stateless::Model,
    ) -> (r: Option<stateful::Car>)
        requires
            stateless_model.city.wf(),
            (match spec_try_out(local_state, &stateless_model.city) {
                Some(w) => w.0 == rd && w.1 == ri && w.2 == ld && w.3 == li as int,
                None => false,
            }),
            process_local_state::lane_exists(&stateless_model.city, rd, ri, ld, li as int),
        ensures
            ({
                let rule = (stateless_model.city.board.spec_road(rd, ri)->Some_0).spec_lanes(
                    ld,
                )[li as int].direction_rule;
                &&& (r is Some <==> rule.spec_any())
                &&& match r {
                    Some(c) => c.velocity == 0 && c.acceleration == 0 && (match c.location {
                        stateful::Location::OnLane {
                            road_direction,
                            road_index,
                            lane_direction,
                            lane_index,
                            about_to_turn,
                            position,
                        } => road_direction == rd && road_index == ri && lane_direction == ld
                            && lane_index == li && position == 0 && rule.allows(about_to_turn),
                        _ => false,
                    }),
                    None => true,
                }
            }),
            r matches Some(c) ==> crate::model::wf_car(&stateless_model.city, c),
    {
        let city = &stateless_model.city;
        let road = match city.board.get_road(rd, ri) {
            Some(Some(road)) => road,
            _ => {
                proof {
                    assert(false);
                }
                return None;
            },
        };
        let rule = road.lanes_to_direction(ld)[li].direction_rule;
        match self.random_choose_relative_direction(rule) {
            Some(about_to_turn) => Some(
                stateful::Car {
                    location: stateful::Location::OnLane {
                        road_direction: rd,
                        road_index: ri,
                        lane_direction: ld,
                        lane_index: li,
                        about_to_turn,
                        position: 0,
                    },
                    velocity: 0,
                    acceleration: 0,
                },
            ),
            None => None,
        }
    }
}


/// A found first-available index is in range and marked available.
pub proof fn lemma_first_available_props(avail: Seq<bool>, i: int)
    requires
        0 <= i <= avail.len(),
    ensures
        (match spec_first_available(avail, i) {
            Some(li) => i <= li < avail.len() && avail[li],
            None => true,
        }),
    decreases avail.len() - i,
{
    if i < avail.len() && !avail[i] {
        lemma_first_available_props(avail, i + 1);
    }
}

/// The spawn slot the scan picks is an existing lane of the city.
pub proof fn lemma_try_out_lane_exists(
    local_state: &ProcessLocalState,
    city: &stateless::City,
    cars: Seq<Option<stateful::Car>>,
)
    requires
        local_state.reflects_availability(city, cars),
    ensures
        (match spec_try_out(local_state, city) {
            Some(w) => process_local_state::lane_exists(city, w.0, w.1, w.2, w.3),
            None => true,
        }),
{
    let dirs = seq![
        AbsoluteDirection::North,
        AbsoluteDirection::South,
        AbsoluteDirection::East,
        AbsoluteDirection::West,
    ];
    lemma_try_out_from_lane_exists(local_state, city, cars, dirs, 0);
}

proof fn lemma_try_out_from_lane_exists(
    local_state: &ProcessLocalState,
    city: &stateless::City,
    cars: Seq<Option<stateful::Car>>,
    dirs: Seq<AbsoluteDirection>,
    i: int,
)
    requires
        local_state.reflects_availability(city, cars),
        0 <= i <= dirs.len(),
    ensures
        (match spec_try_out_from(local_state, city, dirs, i) {
            Some(w) => process_local_state::lane_exists(city, w.0, w.1, w.2, w.3),
            None => true,
        }),
    decreases dirs.len() - i,
{
    if i < dirs.len() {
        let d = dirs[i];
        let avail = local_state.car_out_intersection_lane_out_availability.spec_get(d)@;
        let side = city.board.spec_context_side(
            city.car_out_intersection.0 as int,
            city.car_out_intersection.1 as int,
            d,
        );
        lemma_first_available_props(avail, 0);
        match spec_first_available(avail, 0) {
            Some(li) => match side {
                Some(rid) => {
                    assert(local_state.reflects_availability_prefix(city, cars, cars.len() as int));
                },
                None => {
                    lemma_try_out_from_lane_exists(local_state, city, cars, dirs, i + 1);
                },
            },
            None => {
                lemma_try_out_from_lane_exists(local_state, city, cars, dirs, i + 1);
            },
        }
    }
}



/// Slot `i`'s new value is admitted by `update_car` run by `rank`, for
/// some state of the once-per-tick spawn flag.
pub open spec fn slot_step_admitted(
    controller: UpdateController,
    local_state: &ProcessLocalState,
    sf_old: &stateful::Model,
    sl_model: &stateless::Model,
    i: int,
    dt: i64,
    rank: int,
    slot: Option<stateful::Car>,
) -> bool {
    exists|outed_before: bool|
        #[trigger] car_step_ok(
            controller,
            rank as usize,
            outed_before,
            local_state,
            sf_old,
            sl_model,
            i as usize,
            dt,
            slot,
        )
}

/// The next vehicle list is, slot by slot, an admissible step of the old
/// one: for the worker whose division range holds a slot, some state of
/// the once-per-tick spawn flag admits the slot's new value.
pub open spec fn cars_step_ok(
    controller: UpdateController,
    local_state: &ProcessLocalState,
    sf_old: &stateful::Model,
    sl_model: &stateless::Model,
    dt: i64,
    size: usize,
    new_cars: Seq<Option<stateful::Car>>,
) -> bool {
    &&& new_cars.len() == sf_old.cars.len()
    &&& forall|i: int, rank: int|
        #![trigger new_cars[i], crate::communication::spec_first(sf_old.cars.len() as nat, rank as nat, size as nat)]
        0 <= i < new_cars.len() && 0 <= rank < size && crate::communication::spec_first(
            sf_old.cars.len() as nat,
            rank as nat,
            size as nat,
        ) <= i && i < crate::communication::spec_last(
            sf_old.cars.len() as nat,
            rank as nat,
            size as nat,
        ) ==> slot_step_admitted(controller, local_state, sf_old, sl_model, i, dt, rank, new_cars[i])
}

/// A sum of payloads each at most `per` bytes is at most `k * per`.
proof fn lemma_total_encoded_len_bound(
    sends: Seq<Seq<Option<stateful::Car>>>,
    k: int,
    per: int,
)
    requires
        0 <= k <= sends.len(),
        forall|i: int|
            0 <= i < sends.len() ==> (#[trigger] codec::enc_cars(sends[i])).len() <= per,
    ensures
        crate::communication::total_encoded_len(sends, k) <= k * per,
    decreases k,
{
    if k > 0 {
        lemma_total_encoded_len_bound(sends, k - 1, per);
        assert(k * per == (k - 1) * per + per) by (nonlinear_arith);
    } else {
        assert(k * per == 0) by (nonlinear_arith)
            requires
                k == 0,
        ;
    }
}

impl UpdateController {
    /// One tick of the vehicle pass, run for the whole worker group in
    /// lockstep: every worker derives the snapshot, advances its work
    /// division's range, and the partial lists are all-gathered and
    /// flattened into the next vehicle list.  The list keeps its length
    /// and every vehicle in it is well placed; on an exchange error the
    /// list is unchanged.
    #[verifier::rlimit(100)]
    #[verifier::spinoff_prover]
    pub fn update_cars(
        &self,
        stateful_model: &mut stateful::Model,
        stateless_model: &stateless::Model,
        dt: i64,
        size: usize,
    ) -> (r: Result<(), crate::communication::CommunicationError>)
        requires
            wf_models(stateless_model, old(stateful_model)),
            size >= 1,
            old(stateful_model).cars.len() + size <= usize::MAX,
            0 <= dt <= QUANTITY_LIMIT,
        ensures
            final(stateful_model).city == old(stateful_model).city,
            r is Ok ==> final(stateful_model).cars.len() == old(stateful_model).cars.len(),
            r is Ok ==> wf_models(stateless_model, final(stateful_model)),
            r is Err ==> final(stateful_model).cars == old(stateful_model).cars,
            r is Ok ==> exists|ls: ProcessLocalState|
                {
                    &&& #[trigger] ls.matches_city(&stateless_model.city)
                    &&& ls.reflects(&stateless_model.city, old(stateful_model).cars@)
                    &&& ls.reflects_availability(&stateless_model.city, old(stateful_model).cars@)
                    &&& cars_step_ok(
                        *self,
                        &ls,
                        old(stateful_model),
                        stateless_model,
                        dt,
                        size,
                        final(stateful_model).cars@,
                    )
                },
            8 + 73 * (old(stateful_model).cars.len() as int) <= WIRE_COUNT_LIMIT as int && (8 + 73
                * (old(stateful_model).cars.len() as int)) * (size as int) <= usize::MAX as int
                ==> r is Ok,
    {
        let city = &stateless_model.city;
        let local_state = ProcessLocalState::generate(
            city,
            &stateful_model.cars,
            &stateless_model.cars,
        );
        let car_number = stateful_model.cars.len();
        let mut sends: Vec<Vec<Option<stateful::Car>>> = Vec::new();
        let mut rank: usize = 0;
        let ghost chunk = crate::communication::spec_chunk(car_number as nat, size as nat);
        while rank < size
            invariant
                wf_models(stateless_model, stateful_model),
                local_state.matches_city(&stateless_model.city),
                local_state.reflects(&stateless_model.city, stateful_model.cars@),
                local_state.reflects_availability(&stateless_model.city, stateful_model.cars@),
                0 <= dt <= QUANTITY_LIMIT,
                car_number == stateful_model.cars.len(),
                car_number + size <= usize::MAX,
                size >= 1,
                rank <= size,
                chunk == crate::communication::spec_chunk(car_number as nat, size as nat),
                sends.len() == rank,
                forall|w: int|
                    0 <= w < rank ==> (#[trigger] sends[w])@.len()
                        == crate::communication::spec_last(
                        car_number as nat,
                        w as nat,
                        size as nat,
                    ) - vstd::math::min(
                        car_number as int,
                        crate::communication::spec_first(car_number as nat, w as nat, size as nat) as int,
                    ),
                forall|w: int, t: int|
                    0 <= w < rank && 0 <= t < (#[trigger] sends[w])@.len()
                        ==> (match #[trigger] sends[w]@[t] {
                        Some(c) => crate::model::wf_car(&stateless_model.city, c),
                        None => true,
                    }),
                forall|w: int, t: int|
                    #![trigger sends@[w][t]]
                    0 <= w < rank && 0 <= t < sends@[w].len() ==> slot_step_admitted(
                        *self,
                        &local_state,
                        stateful_model,
                        stateless_model,
                        vstd::math::min(
                            car_number as int,
                            crate::communication::spec_first(
                                car_number as nat,
                                w as nat,
                                size as nat,
                            ) as int,
                        ) + t,
                        dt,
                        w,
                        sends@[w][t],
                    ),
            decreases size - rank,
        {
            let division = Division::new(car_number, rank, size);
            let (first, last) = division.range();
            let start = if first < car_number {
                first
            } else {
                car_number
            };
            let mut local_cars: Vec<Option<stateful::Car>> = Vec::new();
            let mut outed = false;
            let mut idx: usize = start;
            proof {
                if first < car_number {
                    assert(start == vstd::math::min(car_number as int, first as int));
                } else {
                    assert(last <= car_number);
                    assert(start == vstd::math::min(car_number as int, first as int));
                }
            }
            while idx < last
                invariant
                    wf_models(stateless_model, stateful_model),
                    local_state.matches_city(&stateless_model.city),
                    local_state.reflects(&stateless_model.city, stateful_model.cars@),
                    local_state.reflects_availability(
                        &stateless_model.city,
                        stateful_model.cars@,
                    ),
                    0 <= dt <= QUANTITY_LIMIT,
                    car_number == stateful_model.cars.len(),
                    start <= idx,
                    idx <= last || idx == start,
                    last <= car_number,
                    local_cars.len() == idx - start,
                    forall|t: int|
                        0 <= t < local_cars.len() ==> (match #[trigger] local_cars[t] {
                            Some(c) => crate::model::wf_car(&stateless_model.city, c),
                            None => true,
                        }),
                    forall|t: int|
                        0 <= t < local_cars.len() ==> #[trigger] slot_step_admitted(
                            *self,
                            &local_state,
                            stateful_model,
                            stateless_model,
                            start + t,
                            dt,
                            rank as int,
                            local_cars@[t],
                        ),
                decreases last - idx,
            {
                let ghost b0 = outed;
                let ghost old_local = local_cars@;
                let next = self.update_car(
                    &mut outed,
                    rank,
                    idx,
                    &local_state,
                    stateful_model,
                    stateless_model,
                    dt,
                );
                local_cars.push(next);
                proof {
                    assert(car_step_ok(
                        *self,
                        rank,
                        b0,
                        &local_state,
                        stateful_model,
                        stateless_model,
                        idx,
                        dt,
                        next,
                    ));
                    assert(slot_step_admitted(
                        *self,
                        &local_state,
                        stateful_model,
                        stateless_model,
                        idx as int,
                        dt,
                        rank as int,
                        next,
                    )) by {
                        assert(car_step_ok(
                            *self,
                            ((rank as int) as usize),
                            b0,
                            &local_state,
                            stateful_model,
                            stateless_model,
                            ((idx as int) as usize),
                            dt,
                            next,
                        ));
                    }
                    assert(local_cars@[local_cars@.len() - 1] == next);
                    assert forall|t: int|
                        0 <= t < local_cars@.len() implies #[trigger] slot_step_admitted(
                        *self,
                        &local_state,
                        stateful_model,
                        stateless_model,
                        start + t,
                        dt,
                        rank as int,
                        local_cars@[t],
                    ) by {
                        if t < local_cars@.len() - 1 {
                            assert(local_cars@[t] == old_local[t]);
                        } else {
                            assert(local_cars@[t] == next && start + t == idx as int);
                        }
                    }
                }
                idx = idx + 1;
            }
            proof {
                vstd::arithmetic::mul::lemma_mul_inequality(
                    rank as int,
                    rank as int + 1,
                    chunk as int,
                );
                assert(local_cars@.len() == crate::communication::spec_last(
                    car_number as nat,
                    rank as nat,
                    size as nat,
                ) - vstd::math::min(car_number as int, crate::communication::spec_first(
                    car_number as nat,
                    rank as nat,
                    size as nat,
                ) as int));
            }
            let ghost old_sends = sends@;
            sends.push(local_cars);
            proof {
                assert forall|w: int, t: int|
                    #![trigger sends@[w][t]]
                    0 <= w < rank + 1 && 0 <= t < sends@[w].len() implies slot_step_admitted(
                    *self,
                    &local_state,
                    stateful_model,
                    stateless_model,
                    vstd::math::min(
                        car_number as int,
                        crate::communication::spec_first(
                            car_number as nat,
                            w as nat,
                            size as nat,
                        ) as int,
                    ) + t,
                    dt,
                    w,
                    sends@[w][t],
                ) by {
                    if w < rank {
                        assert(sends@[w] == old_sends[w]);
                        assert(sends@[w][t] == old_sends[w][t]);
                    } else {
                        assert(sends@[w]@ == local_cars@);
                        assert(sends@[w][t] == local_cars@[t]);
                        assert(start == vstd::math::min(
                            car_number as int,
                            crate::communication::spec_first(
                                car_number as nat,
                                w as nat,
                                size as nat,
                            ) as int,
                        ));
                    }
                }
            }
            rank = rank + 1;
        }
        proof {
            let mapped = sends@.map_values(|v: Vec<Option<stateful::Car>>| v@);
            assert(forall|w: int| 0 <= w < sends.len() ==> #[trigger] mapped[w] == sends[w]@);
            if 8 + 73 * (car_number as int) <= WIRE_COUNT_LIMIT as int && (8 + 73 * (
            car_number as int)) * (size as int) <= usize::MAX as int {
                let per = 8 + 73 * (car_number as int);
                assert forall|w: int|
                    0 <= w < mapped.len() implies (#[trigger] codec::enc_cars(mapped[w])).len()
                    <= per by {
                    assert(mapped[w] == sends[w]@);
                    assert(mapped[w].len() <= car_number);
                    codec::lemma_enc_cars_len_bound(mapped[w]);
                }
                assert(crate::communication::all_payloads_fit(mapped));
                lemma_total_encoded_len_bound(mapped, size as int, per);
                assert((size as int) * per == per * (size as int)) by (nonlinear_arith);
                assert(crate::communication::total_encoded_len(mapped, size as int)
                    <= usize::MAX as int);
            }
        }
        let gathered = match crate::communication::all_gather_varcount(&sends) {
            Ok(gathered) => gathered,
            Err(e) => {
                proof {
                    if 8 + 73 * (car_number as int) <= WIRE_COUNT_LIMIT as int && (8 + 73 * (
                    car_number as int)) * (size as int) <= usize::MAX as int {
                        assert(false);
                    }
                }
                return Err(e);
            },
        };
        // Flatten worker 0's received lists (every worker's copy is the
        // same) into the next authoritative vehicle list.
        let mut new_cars: Vec<Option<stateful::Car>> = Vec::new();
        let mut w: usize = 0;
        while w < size
            invariant
                size >= 1,
                sends.len() == size,
                gathered.len() == size,
                forall|a: int, b: int|
                    0 <= a < size && 0 <= b < size ==> (#[trigger] gathered[a][b])@ == sends[b]@,
                forall|a: int| 0 <= a < size ==> (#[trigger] gathered[a]).len() == size,
                forall|b: int|
                    0 <= b < size ==> (#[trigger] sends[b])@.len()
                        == crate::communication::spec_last(
                        car_number as nat,
                        b as nat,
                        size as nat,
                    ) - vstd::math::min(
                        car_number as int,
                        crate::communication::spec_first(car_number as nat, b as nat, size as nat) as int,
                    ),
                forall|b: int, t: int|
                    0 <= b < size && 0 <= t < (#[trigger] sends[b])@.len()
                        ==> (match #[trigger] sends[b]@[t] {
                        Some(c) => crate::model::wf_car(&stateless_model.city, c),
                        None => true,
                    }),
                forall|b: int, t: int|
                    #![trigger sends@[b][t]]
                    0 <= b < size && 0 <= t < sends@[b].len() ==> slot_step_admitted(
                        *self,
                        &local_state,
                        stateful_model,
                        stateless_model,
                        vstd::math::min(
                            car_number as int,
                            crate::communication::spec_first(
                                car_number as nat,
                                b as nat,
                                size as nat,
                            ) as int,
                        ) + t,
                        dt,
                        b,
                        sends@[b][t],
                    ),
                w <= size,
                car_number == stateful_model.cars.len(),
                new_cars.len() == flattened_len(car_number as nat, w as nat, size as nat),
                new_cars.len() <= car_number,
                forall|t: int|
                    0 <= t < new_cars.len() ==> (match #[trigger] new_cars[t] {
                        Some(c) => crate::model::wf_car(&stateless_model.city, c),
                        None => true,
                    }),
                forall|i: int, rank2: int|
                    #![trigger new_cars@[i], crate::communication::spec_first(car_number as nat, rank2 as nat, size as nat)]
                    0 <= i < new_cars.len() && 0 <= rank2 < size
                        && crate::communication::spec_first(
                        car_number as nat,
                        rank2 as nat,
                        size as nat,
                    ) <= i && i < crate::communication::spec_last(
                        car_number as nat,
                        rank2 as nat,
                        size as nat,
                    ) ==> slot_step_admitted(
                        *self,
                        &local_state,
                        stateful_model,
                        stateless_model,
                        i,
                        dt,
                        rank2,
                        new_cars@[i],
                    ),
            decreases size - w,
        {
            let part = &gathered[0][w];
            let ghost before = new_cars@;
            let mut t: usize = 0;
            while t < part.len()
                invariant
                    t <= part.len(),
                    new_cars@ == before + part@.subrange(0, t as int),
                    forall|u: int|
                        0 <= u < part@.len() ==> (match #[trigger] part@[u] {
                            Some(c) => crate::model::wf_car(&stateless_model.city, c),
                            None => true,
                        }),
                    forall|u: int|
                        0 <= u < before.len() ==> (match #[trigger] before[u] {
                            Some(c) => crate::model::wf_car(&stateless_model.city, c),
                            None => true,
                        }),
                decreases part.len() - t,
            {
                new_cars.push(part[t]);
                proof {
                    assert(new_cars@ =~= before + part@.subrange(0, t + 1));
                }
                t = t + 1;
            }
            proof {
                assert(part@.subrange(0, part@.len() as int) =~= part@);
                lemma_flattened_len_step(car_number as nat, w as nat, size as nat);
                assert(part@ == sends[w as int]@);
                let first_w = crate::communication::spec_first(
                    car_number as nat,
                    w as nat,
                    size as nat,
                ) as int;
                let last_w = crate::communication::spec_last(
                    car_number as nat,
                    w as nat,
                    size as nat,
                ) as int;
                if w > 0 {
                    lemma_flattened_len_step(car_number as nat, (w - 1) as nat, size as nat);
                }
                assert(before.len() == vstd::math::min(
                    car_number as int,
                    (crate::communication::spec_chunk(car_number as nat, size as nat)
                        * w as nat) as int,
                ));
                assert forall|i: int, rank2: int|
                    #![trigger new_cars@[i], crate::communication::spec_first(car_number as nat, rank2 as nat, size as nat)]
                    0 <= i < new_cars.len() && 0 <= rank2 < size
                        && crate::communication::spec_first(
                        car_number as nat,
                        rank2 as nat,
                        size as nat,
                    ) <= i && i < crate::communication::spec_last(
                        car_number as nat,
                        rank2 as nat,
                        size as nat,
                    ) implies exists|ob: bool|
                    #[trigger] car_step_ok(
                        *self,
                        rank2 as usize,
                        ob,
                        &local_state,
                        stateful_model,
                        stateless_model,
                        i as usize,
                        dt,
                        new_cars@[i],
                    ) by {
                    if i < before.len() {
                        assert(new_cars@[i] == before[i]);
                    } else {
                        let t = i - before.len();
                        assert(new_cars@[i] == sends[w as int]@[t]);
                        assert(sends[w as int]@.len() == last_w - vstd::math::min(
                            car_number as int,
                            first_w,
                        ));
                        assert(vstd::math::min(car_number as int, first_w) < last_w);
                        assert(vstd::math::min(car_number as int, first_w) == first_w);
                        assert(before.len() == first_w);
                        assert(first_w <= i < last_w);
                        crate::communication::lemma_division_partition(
                            car_number as nat,
                            size as nat,
                            i as nat,
                        );
                        if rank2 < w {
                            assert(crate::communication::spec_last(
                                car_number as nat,
                                rank2 as nat,
                                size as nat,
                            ) <= crate::communication::spec_first(
                                car_number as nat,
                                w as nat,
                                size as nat,
                            ));
                            assert(false);
                        } else if rank2 > w {
                            assert(crate::communication::spec_last(
                                car_number as nat,
                                w as nat,
                                size as nat,
                            ) <= crate::communication::spec_first(
                                car_number as nat,
                                rank2 as nat,
                                size as nat,
                            ));
                            assert(false);
                        }
                        assert(rank2 == w);
                    }
                }
            }
            w = w + 1;
        }
        proof {
            lemma_flattened_len_total(car_number as nat, size as nat);
            assert(cars_step_ok(
                *self,
                &local_state,
                stateful_model,
                stateless_model,
                dt,
                size,
                new_cars@,
            ));
        }
        stateful_model.cars = new_cars;
        Ok(())
    }
}

/// The number of vehicles the first `w` workers hand back.
pub open spec fn flattened_len(count: nat, w: nat, size: nat) -> int
    decreases w,
{
    if w == 0 {
        0
    } else {
        flattened_len(count, (w - 1) as nat, size) + (crate::communication::spec_last(
            count,
            (w - 1) as nat,
            size,
        ) - vstd::math::min(
            count as int,
            crate::communication::spec_first(count, (w - 1) as nat, size) as int,
        ))
    }
}

/// After `w` workers, the flattened list holds the first
/// `min(count, chunk * w)` vehicles.
pub proof fn lemma_flattened_len_step(count: nat, w: nat, size: nat)
    requires
        size >= 1,
        w < size,
    ensures
        flattened_len(count, w + 1, size) == vstd::math::min(
            count as int,
            (crate::communication::spec_chunk(count, size) * (w + 1)) as int,
        ),
    decreases w,
{
    let c = crate::communication::spec_chunk(count, size);
    vstd::arithmetic::mul::lemma_mul_inequality(w as int, (w + 1) as int, c as int);
    assert(flattened_len(count, w + 1, size) == flattened_len(count, w, size) + (
    crate::communication::spec_last(count, w, size) - vstd::math::min(
        count as int,
        crate::communication::spec_first(count, w, size) as int,
    )));
    if w == 0 {
        assert(c * 0 == 0) by (nonlinear_arith);
        assert(c * (0 + 1) == c) by (nonlinear_arith);
        assert(flattened_len(count, 0, size) == 0);
    } else {
        lemma_flattened_len_step(count, (w - 1) as nat, size);
        vstd::arithmetic::mul::lemma_mul_inequality((w - 1) as int, w as int, c as int);
        assert(flattened_len(count, w, size) == vstd::math::min(count as int, (c * w) as int));
        if c * w <= count {
            assert(flattened_len(count, w + 1, size) == c * w + (vstd::math::min(
                count as int,
                (c * (w + 1)) as int,
            ) - c * w));
        } else {
            assert(crate::communication::spec_last(count, w, size) == count);
            assert(vstd::math::min(count as int, crate::communication::spec_first(
                count,
                w,
                size,
            ) as int) == count);
        }
    }
}

/// After all workers, the flattened list holds every vehicle.
pub proof fn lemma_flattened_len_total(count: nat, size: nat)
    requires
        size >= 1,
    ensures
        flattened_len(count, size, size) == count,
{
    lemma_flattened_len_step(count, (size - 1) as nat, size);
    crate::communication::lemma_chunk_covers_pub(count, size);
}


impl UpdateController {
    /// One full tick for the whole worker group: the coordinator advances
    /// every intersection signal and the city state is broadcast, every
    /// worker advances its range of vehicles over the snapshot, the
    /// partial results are all-gathered into the next vehicle list, and
    /// the spawn turn moves to the next worker.
    #[verifier::rlimit(100)]
    #[verifier::spinoff_prover]
    pub fn update(
        &mut self,
        stateful_model: &mut stateful::Model,
        stateless_model: &stateless::Model,
        dt: i64,
        size: usize,
    ) -> (r: Result<(), crate::communication::CommunicationError>)
        requires
            wf_models(stateless_model, old(stateful_model)),
            size >= 1,
            old(stateful_model).cars.len() + size <= usize::MAX,
            0 <= dt <= QUANTITY_LIMIT,
            old(self).car_out_rank < size,
        ensures
            final(self).car_out_rank == (old(self).car_out_rank + 1) % (size as int),
            r is Ok ==> final(stateful_model).cars.len() == old(stateful_model).cars.len(),
            r is Ok ==> wf_models(stateless_model, final(stateful_model)),
            r is Ok ==> exists|ls: ProcessLocalState|
                {
                    &&& #[trigger] ls.matches_city(&stateless_model.city)
                    &&& ls.reflects(&stateless_model.city, old(stateful_model).cars@)
                    &&& ls.reflects_availability(&stateless_model.city, old(stateful_model).cars@)
                    &&& cars_step_ok(
                        *old(self),
                        &ls,
                        &(stateful::Model {
                            city: final(stateful_model).city,
                            cars: old(stateful_model).cars,
                        }),
                        stateless_model,
                        dt,
                        size,
                        final(stateful_model).cars@,
                    )
                },
            8 + 73 * (old(stateful_model).cars.len() as int) <= crate::communication::WIRE_COUNT_LIMIT as int
                && (8 + 73 * (old(stateful_model).cars.len() as int)) * (size as int)
                <= usize::MAX as int ==> r is Ok,
            forall|i: int, j: int|
                #[trigger] final(stateful_model).city.board.intersections.in_bounds(i, j)
                    ==> final(stateful_model).city.board.intersections.spec_at(i, j) == (match (
                    stateless_model.city.board.intersections.spec_at(i, j),
                    old(stateful_model).city.board.intersections.spec_at(i, j),
                ) {
                    (Some(sl_int), Some(sf_int)) => Some(
                        spec_intersection_step(sf_int, &sl_int, dt),
                    ),
                    _ => old(stateful_model).city.board.intersections.spec_at(i, j),
                }),
    {
        self.update_city(&mut stateful_model.city, &stateless_model.city, dt);
        let copies = match crate::communication::broadcast_city(&stateful_model.city, size) {
            Ok(copies) => copies,
            Err(e) => {
                self.car_out_rank = (self.car_out_rank + 1) % size;
                return Err(e);
            },
        };
        let step = self.update_cars(stateful_model, stateless_model, dt, size);
        proof {
            match step {
                Ok(_) => {
                    let ls = choose|ls: ProcessLocalState|
                        {
                            &&& #[trigger] ls.matches_city(&stateless_model.city)
                            &&& ls.reflects(&stateless_model.city, old(stateful_model).cars@)
                            &&& ls.reflects_availability(
                                &stateless_model.city,
                                old(stateful_model).cars@,
                            )
                            &&& cars_step_ok(
                                *self,
                                &ls,
                                &(stateful::Model {
                                    city: stateful_model.city,
                                    cars: old(stateful_model).cars,
                                }),
                                stateless_model,
                                dt,
                                size,
                                stateful_model.cars@,
                            )
                        };
                    assert(ls.matches_city(&stateless_model.city));
                },
                Err(_) => {},
            }
        }
        self.car_out_rank = (self.car_out_rank + 1) % size;
        step
    }
}

/// Spawn fairness: the round-robin spawn counter visits every worker
/// exactly once over any `size` consecutive ticks.  Tick `t` after a
/// start value `start` hands the spawn turn to `(start + t) % size`; over
/// `t in [0, size)` each rank is hit exactly once.
pub proof fn lemma_spawn_round_robin(start: int, size: int)
    requires
        size >= 1,
        0 <= start < size,
    ensures
        forall|r: int| 0 <= r < size ==> #[trigger] spawn_turn_reached(start, size, r),
        forall|t1: int, t2: int|
            0 <= t1 < t2 < size ==> #[trigger] spec_spawn_rank(start, t1, size)
                != #[trigger] spec_spawn_rank(start, t2, size),
{
    assert forall|r: int| 0 <= r < size implies #[trigger] spawn_turn_reached(
        start,
        size,
        r,
    ) by {
        let t = if r >= start {
            r - start
        } else {
            r - start + size
        };
        assert(0 <= t < size);
        vstd::arithmetic::div_mod::lemma_small_mod(start as nat, size as nat);
        vstd::arithmetic::div_mod::lemma_small_mod(t as nat, size as nat);
        vstd::arithmetic::div_mod::lemma_mod_adds(start, t, size);
        if start + t < size {
            vstd::arithmetic::div_mod::lemma_small_mod((start + t) as nat, size as nat);
        } else {
            vstd::arithmetic::div_mod::lemma_small_mod((start + t - size) as nat, size as nat);
            assert((start + t) % size == (start + t - size) % size) by {
                vstd::arithmetic::div_mod::lemma_mod_sub_multiples_vanish(start + t, size);
            }
        }
        assert(0 <= t < size && spec_spawn_rank(start, t, size) == r);
    }
    assert forall|t1: int, t2: int| 0 <= t1 < t2 < size implies #[trigger] spec_spawn_rank(
        start,
        t1,
        size,
    ) != #[trigger] spec_spawn_rank(start, t2, size) by {
        if spec_spawn_rank(start, t1, size) == spec_spawn_rank(start, t2, size) {
            vstd::arithmetic::div_mod::lemma_mod_equivalence(start + t2, start + t1, size);
            assert((t2 - t1) % size == 0);
            vstd::arithmetic::div_mod::lemma_small_mod((t2 - t1) as nat, size as nat);
        }
    }
}

/// The worker holding the spawn turn `t` ticks after a start value.
pub open spec fn spec_spawn_rank(start: int, t: int, size: int) -> int {
    (start + t) % size
}

/// Some tick among the next `size` hands worker `r` the spawn turn.
pub open spec fn spawn_turn_reached(start: int, size: int, r: int) -> bool {
    exists|t: int| 0 <= t < size && #[trigger] spec_spawn_rank(start, t, size) == r
}

} // verus!
