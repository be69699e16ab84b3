use mpi_traffic::communication::{all_gather_varcount, broadcast_city, broadcast_dt, CommunicationError};
use mpi_traffic::controller::process_local_state::ProcessLocalState;
use mpi_traffic::controller::UpdateController;
use mpi_traffic::model::board::Board;
use mpi_traffic::model::codec;
use mpi_traffic::model::common::{
    Around, AxisDirection, LaneDirection, RelativeDirection, TurnRule,
};
use mpi_traffic::model::stateful;
use mpi_traffic::model::stateless;
use mpi_traffic::model::stateless::{Lane, Road};

fn demo_car(position: i64) -> stateful::Car {
    stateful::Car {
        location: stateful::Location::OnLane {
            road_direction: AxisDirection::Horizontal,
            road_index: (0, 0),
            lane_direction: LaneDirection::HighToLow,
            lane_index: 0,
            about_to_turn: RelativeDirection::Front,
            position,
        },
        velocity: 3,
        acceleration: 1,
    }
}

#[test]
fn cars_codec_round_trip() {
    let cars = vec![None, Some(demo_car(7)), None];
    let bytes = codec::encode_cars(&cars);
    let back = codec::decode_cars(&bytes).unwrap();
    assert_eq!(back.len(), 3);
    assert_eq!(back[0], None);
    assert_eq!(back[1], Some(demo_car(7)));
    assert_eq!(back[2], None);
}

#[test]
fn cars_codec_rejects_truncated_input() {
    let cars = vec![Some(demo_car(1))];
    let mut bytes = codec::encode_cars(&cars);
    bytes.pop();
    assert!(codec::decode_cars(&bytes).is_none());
}

fn demo_stateful_city() -> stateful::City {
    let mut city = stateful::City {
        board: Board::with_shape(None, (), (2, 2)),
    };
    city.board.intersections.set(
        (0, 0),
        Some(stateful::Intersection::Crossroad {
            current: Around {
                north: TurnRule { bits: 1 },
                west: TurnRule { bits: 2 },
                south: TurnRule { bits: 4 },
                east: TurnRule { bits: 8 },
            },
            switch_state: stateful::SwitchState::LoopTimeout {
                remain_time: 30,
                time_index: 0,
                rule_index: 0,
            },
        }),
    );
    city.board.intersections.set((1, 1), Some(stateful::Intersection::Straight));
    city
}

#[test]
fn broadcast_city_deep_equal_everywhere() {
    let city = demo_stateful_city();
    let received = broadcast_city(&city, 4).unwrap();
    assert_eq!(received.len(), 4);
    for copy in received.iter() {
        assert_eq!(
            copy.board.intersections.shape,
            city.board.intersections.shape
        );
        assert_eq!(copy.board.intersections.storage, city.board.intersections.storage);
    }
}

#[test]
fn broadcast_dt_sentinel() {
    let received = broadcast_dt(&Some(17), 3).unwrap();
    assert_eq!(received, vec![Some(17), Some(17), Some(17)]);
    let stop = broadcast_dt(&None, 3).unwrap();
    assert_eq!(stop, vec![None, None, None]);
}

#[test]
fn all_gather_returns_every_list_in_rank_order() {
    let sends = vec![
        vec![Some(demo_car(1))],
        vec![None, Some(demo_car(2))],
        vec![],
    ];
    let gathered = all_gather_varcount(&sends).unwrap();
    assert_eq!(gathered.len(), 3);
    for worker in gathered.iter() {
        assert_eq!(worker.len(), 3);
        assert_eq!(worker[0], vec![Some(demo_car(1))]);
        assert_eq!(worker[1], vec![None, Some(demo_car(2))]);
        assert_eq!(worker[2], vec![]);
    }
}

fn one_road_city() -> stateless::City {
    // A 1 x 2 grid: a single horizontal road between two intersections.
    let mut board: Board<Option<stateless::Intersection>, Option<Road>> =
        Board::with_shape(None, None, (1, 2));
    board.set_road(
        AxisDirection::Horizontal,
        (0, 0),
        Some(Road {
            lane_to_high: vec![Lane {
                max_speed: 100,
                direction_rule: TurnRule { bits: 1 },
            }],
            lane_to_low: vec![Lane {
                max_speed: 100,
                direction_rule: TurnRule { bits: 1 },
            }],
        }),
    );
    board.intersections.set((0, 0), Some(stateless::Intersection::End { max_speed: 10 }));
    board.intersections.set((0, 1), Some(stateless::Intersection::End { max_speed: 10 }));
    stateless::City {
        board,
        car_out_intersection: (0, 0),
        car_out_min_distance: 10,
        lane_width: 4,
        horizontal_road_length: vec![500],
        vertical_road_length: vec![],
        intersection_height: vec![20],
        intersection_width: vec![20, 20],
    }
}

#[test]
fn snapshot_sorts_lane_occupants() {
    let city = one_road_city();
    let stateless_cars: Vec<stateless::Car> = Vec::new();
    let cars = vec![Some(demo_car(200)), None, Some(demo_car(50))];
    let snapshot = ProcessLocalState::generate(&city, &cars, &stateless_cars);
    let road = snapshot
        .board
        .get_road(AxisDirection::Horizontal, (0, 0))
        .unwrap()
        .as_ref()
        .unwrap();
    let lane = &road.lanes_to_direction(LaneDirection::HighToLow)[0];
    assert_eq!(lane.cars, vec![(50, 2), (200, 0)]);
    let other = &road.lanes_to_direction(LaneDirection::LowToHigh)[0];
    assert!(other.cars.is_empty());
}

#[test]
fn snapshot_of_empty_board_has_empty_lanes() {
    let city = one_road_city();
    let stateless_cars: Vec<stateless::Car> = Vec::new();
    let cars: Vec<Option<stateful::Car>> = vec![None, None];
    let snapshot = ProcessLocalState::generate(&city, &cars, &stateless_cars);
    let road = snapshot
        .board
        .get_road(AxisDirection::Horizontal, (0, 0))
        .unwrap()
        .as_ref()
        .unwrap();
    assert!(road.lanes_to_direction(LaneDirection::HighToLow)[0].cars.is_empty());
    assert!(road.lanes_to_direction(LaneDirection::LowToHigh)[0].cars.is_empty());
}

#[test]
fn spawn_lane_blocked_by_close_vehicle() {
    let city = one_road_city();
    let stateless_cars: Vec<stateless::Car> = Vec::new();
    // A vehicle 5 units out on the east-side outgoing lane (within the
    // minimum distance 10) blocks that spawn lane.
    let blocker = stateful::Car {
        location: stateful::Location::OnLane {
            road_direction: AxisDirection::Horizontal,
            road_index: (0, 0),
            lane_direction: LaneDirection::HighToLow,
            lane_index: 0,
            about_to_turn: RelativeDirection::Front,
            position: 5,
        },
        velocity: 0,
        acceleration: 0,
    };
    let cars = vec![Some(blocker)];
    let snapshot = ProcessLocalState::generate(&city, &cars, &stateless_cars);
    let east = snapshot
        .car_out_intersection_lane_out_availability
        .get(mpi_traffic::model::common::AbsoluteDirection::East);
    assert_eq!(east.as_slice(), &[false]);
    let far = vec![Some(demo_car(400))];
    let snapshot2 = ProcessLocalState::generate(&city, &far, &stateless_cars);
    let east2 = snapshot2
        .car_out_intersection_lane_out_availability
        .get(mpi_traffic::model::common::AbsoluteDirection::East);
    assert_eq!(east2.as_slice(), &[true]);
}

#[test]
fn driver_acceleration_formula() {
    let model = stateless::car::DrivingModel::Normal {
        min_cushion: 1,
        cushion_velocity_factor: 0,
        prediction_time: 2,
    };
    // cushion 1, dx = 4, target average 2, acceleration (2 + 0 - 0) * 2 / 2.
    assert_eq!(UpdateController::driver_acceleration(0, 0, &model, 5, 0), 2);
    // A closer obstacle asks for less acceleration.
    assert_eq!(UpdateController::driver_acceleration(0, 0, &model, 3, 0), 1);
}

#[test]
fn loop_timeout_switch() {
    let controller = UpdateController::new();
    let sl = stateless::Intersection::Crossroad {
        max_speed: 10,
        rules: vec![
            Around {
                north: TurnRule { bits: 1 },
                west: TurnRule { bits: 1 },
                south: TurnRule { bits: 1 },
                east: TurnRule { bits: 1 },
            },
            Around {
                north: TurnRule { bits: 2 },
                west: TurnRule { bits: 2 },
                south: TurnRule { bits: 2 },
                east: TurnRule { bits: 2 },
            },
        ],
        switch_rule: stateless::intersection::SwitchRule::LoopTimeout {
            times: vec![30, 3],
        },
    };
    let mut sf = stateful::Intersection::Crossroad {
        current: Around {
            north: TurnRule { bits: 1 },
            west: TurnRule { bits: 1 },
            south: TurnRule { bits: 1 },
            east: TurnRule { bits: 1 },
        },
        switch_state: stateful::SwitchState::LoopTimeout {
            remain_time: 30,
            time_index: 0,
            rule_index: 0,
        },
    };
    // Ticks summing to exactly the phase duration leave the remaining
    // time at zero; the phase switches on the tick that crosses zero.
    for _ in 0..3 {
        controller.update_intersection(&mut sf, &sl, 10).unwrap();
    }
    match sf {
        stateful::Intersection::Crossroad { switch_state, .. } => {
            assert_eq!(
                switch_state,
                stateful::SwitchState::LoopTimeout {
                    remain_time: 0,
                    time_index: 0,
                    rule_index: 0,
                }
            );
        },
        _ => panic!("kind changed"),
    }
    controller.update_intersection(&mut sf, &sl, 1).unwrap();
    sf.update_current(&sl).unwrap();
    match sf {
        stateful::Intersection::Crossroad { current, switch_state } => {
            assert_eq!(
                switch_state,
                stateful::SwitchState::LoopTimeout {
                    remain_time: 2,
                    time_index: 1,
                    rule_index: 1,
                }
            );
            assert_eq!(current.north.bits, 2);
        },
        _ => panic!("kind changed"),
    }
}

#[test]
fn update_intersection_kind_mismatch_is_an_error() {
    let controller = UpdateController::new();
    let sl = stateless::Intersection::Straight;
    let mut sf = stateful::Intersection::Crossroad {
        current: Around {
            north: TurnRule { bits: 0 },
            west: TurnRule { bits: 0 },
            south: TurnRule { bits: 0 },
            east: TurnRule { bits: 0 },
        },
        switch_state: stateful::SwitchState::LoopTimeout {
            remain_time: 1,
            time_index: 0,
            rule_index: 0,
        },
    };
    assert!(controller.update_intersection(&mut sf, &sl, 1).is_err());
    assert!(sf.update_current(&sl).is_err());
}

#[test]
fn all_gather_rejects_oversize_payload_error_kind() {
    // The error variants carried by the exchange layer.
    assert_ne!(
        CommunicationError::Serialization,
        CommunicationError::IntegerConversion
    );
}

#[test]
fn turn_rule_bits() {
    let all = TurnRule::all();
    assert!(all.contains_turn(RelativeDirection::Front));
    assert!(all.contains_turn(RelativeDirection::Back));
    let none = TurnRule::empty();
    assert!(!none.contains_turn(RelativeDirection::Left));
    let front = RelativeDirection::Front.to_turn_rule();
    assert!(front.contains_turn(RelativeDirection::Front));
    assert!(!front.contains_turn(RelativeDirection::Right));
    assert!(front.intersects(all));
}

fn back_and_forth_city() -> stateless::City {
    // One road between two dead ends; every lane only permits turning
    // back, so the rule graph closes over the road.
    let mut board: Board<Option<stateless::Intersection>, Option<Road>> =
        Board::with_shape(None, None, (1, 2));
    board.set_road(
        AxisDirection::Horizontal,
        (0, 0),
        Some(Road {
            lane_to_high: vec![Lane {
                max_speed: 100,
                direction_rule: TurnRule { bits: 8 },
            }],
            lane_to_low: vec![Lane {
                max_speed: 100,
                direction_rule: TurnRule { bits: 8 },
            }],
        }),
    );
    board.intersections.set((0, 0), Some(stateless::Intersection::End { max_speed: 10 }));
    board.intersections.set((0, 1), Some(stateless::Intersection::End { max_speed: 10 }));
    stateless::City {
        board,
        car_out_intersection: (0, 0),
        car_out_min_distance: 10,
        lane_width: 4,
        horizontal_road_length: vec![500],
        vertical_road_length: vec![],
        intersection_height: vec![20],
        intersection_width: vec![20, 20],
    }
}

fn back_and_forth_model(position: i64, velocity: i64) -> (stateless::Model, stateful::Model) {
    let city = back_and_forth_city();
    let sl_car = stateless::Car {
        max_velocity: 50,
        max_acceleration: 5,
        max_break_acceleration: 5,
        lane_change_time: 1,
        driving_model: stateless::car::DrivingModel::Normal {
            min_cushion: 1,
            cushion_velocity_factor: 0,
            prediction_time: 2,
        },
    };
    let sl_model = stateless::Model {
        city,
        cars: vec![sl_car],
    };
    let mut sf_board: Board<Option<stateful::Intersection>, ()> =
        Board::with_shape(None, (), (1, 2));
    sf_board.intersections.set((0, 0), Some(stateful::Intersection::End));
    sf_board.intersections.set((0, 1), Some(stateful::Intersection::End));
    let car = stateful::Car {
        location: stateful::Location::OnLane {
            road_direction: AxisDirection::Horizontal,
            road_index: (0, 0),
            lane_direction: LaneDirection::HighToLow,
            lane_index: 0,
            about_to_turn: RelativeDirection::Back,
            position,
        },
        velocity,
        acceleration: 0,
    };
    let sf_model = stateful::Model {
        city: stateful::City { board: sf_board },
        cars: vec![Some(car)],
    };
    (sl_model, sf_model)
}

#[test]
fn tick_advances_position_by_previous_velocity() {
    let (sl_model, mut sf_model) = back_and_forth_model(10, 3);
    let mut controller = UpdateController::new();
    controller.update(&mut sf_model, &sl_model, 1, 1).unwrap();
    assert_eq!(sf_model.cars.len(), 1);
    match sf_model.cars[0].as_ref().unwrap().location {
        stateful::Location::OnLane { position, .. } => assert_eq!(position, 13),
        _ => panic!("expected the vehicle to stay on its lane"),
    }
    assert_eq!(controller.car_out_rank, 0);
}

#[test]
fn tick_enters_intersection_past_road_end() {
    let (sl_model, mut sf_model) = back_and_forth_model(498, 3);
    let mut controller = UpdateController::new();
    controller.update(&mut sf_model, &sl_model, 1, 1).unwrap();
    assert_eq!(sf_model.cars.len(), 1);
    match sf_model.cars[0].as_ref().unwrap().location {
        stateful::Location::InIntersection {
            intersection_index,
            from_direction,
            to_direction,
            position,
            ..
        } => {
            assert_eq!(intersection_index, (0, 1));
            assert_eq!(from_direction, mpi_traffic::model::common::AbsoluteDirection::West);
            assert_eq!(to_direction, mpi_traffic::model::common::AbsoluteDirection::West);
            assert_eq!(position, 0);
        },
        _ => panic!("expected the vehicle to enter the intersection"),
    }
}

#[test]
fn spawn_turn_cycles_through_workers() {
    let (sl_model, mut sf_model) = back_and_forth_model(10, 0);
    let mut controller = UpdateController::new();
    for tick in 0..6 {
        assert_eq!(controller.car_out_rank, tick % 3);
        controller.update(&mut sf_model, &sl_model, 1, 3).unwrap();
    }
}

#[test]
fn snapshot_indexes_lane_change_on_both_lanes() {
    // Two lanes per direction so a lane change has distinct source and
    // destination.
    let mut board: Board<Option<stateless::Intersection>, Option<Road>> =
        Board::with_shape(None, None, (1, 2));
    let lane = Lane {
        max_speed: 100,
        direction_rule: TurnRule { bits: 1 },
    };
    board.set_road(
        AxisDirection::Horizontal,
        (0, 0),
        Some(Road {
            lane_to_high: vec![lane, lane],
            lane_to_low: vec![lane, lane],
        }),
    );
    board.intersections.set((0, 0), Some(stateless::Intersection::End { max_speed: 10 }));
    board.intersections.set((0, 1), Some(stateless::Intersection::End { max_speed: 10 }));
    let city = stateless::City {
        board,
        car_out_intersection: (0, 0),
        car_out_min_distance: 10,
        lane_width: 4,
        horizontal_road_length: vec![500],
        vertical_road_length: vec![],
        intersection_height: vec![20],
        intersection_width: vec![20, 20],
    };
    let changer = stateful::Car {
        location: stateful::Location::ChangingLane {
            road_direction: AxisDirection::Horizontal,
            road_index: (0, 0),
            lane_direction: LaneDirection::HighToLow,
            from_lane_index: 0,
            to_lane_index: 1,
            position: 120,
            lane_changed_proportion: 3,
        },
        velocity: 2,
        acceleration: 0,
    };
    let stateless_cars: Vec<stateless::Car> = Vec::new();
    let cars = vec![Some(changer)];
    let snapshot = ProcessLocalState::generate(&city, &cars, &stateless_cars);
    let road = snapshot
        .board
        .get_road(AxisDirection::Horizontal, (0, 0))
        .unwrap()
        .as_ref()
        .unwrap();
    let lanes = road.lanes_to_direction(LaneDirection::HighToLow);
    assert_eq!(lanes[0].cars, vec![(120, 0)]);
    assert_eq!(lanes[1].cars, vec![(120, 0)]);
}
