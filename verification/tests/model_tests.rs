use mpi_traffic::communication::Division;
use mpi_traffic::model::board::Board;
use mpi_traffic::model::common::AbsoluteDirection::{East, North, South, West};
use mpi_traffic::model::common::AxisDirection::{Horizontal, Vertical};
use mpi_traffic::model::common::LaneDirection::{HighToLow, LowToHigh};
use mpi_traffic::model::common::RelativeDirection::{Back, Front, Left, Right};
use mpi_traffic::model::common::{AbsoluteDirection, Geometry, Position};
use mpi_traffic::model::stateless;

#[test]
fn new_division() {
    let count = 10;
    let size = 3;
    assert_eq!(
        Division::new(count, 0, size),
        Division { first: 0, last: 4 }
    );
    assert_eq!(
        Division::new(count, 1, size),
        Division { first: 4, last: 8 }
    );
    assert_eq!(
        Division::new(count, 2, size),
        Division { first: 8, last: 10 }
    );
}

#[test]
fn division_covers_small_count() {
    // More workers than items: the high ranks get empty ranges.
    let d0 = Division::new(1, 0, 3);
    assert_eq!(d0.range(), (0, 1));
    let d1 = Division::new(1, 1, 3);
    let (f1, l1) = d1.range();
    assert!(f1 >= l1);
}

#[test]
fn test_matrix() {
    let mut mat_f64 = mpi_traffic::matrix::Matrix::with_shape(3.14, (7, 9));
    mat_f64.set((3, 0), 4.14);
    assert_eq!((7, 9), mat_f64.shape());
    assert_eq!(4.14, *mat_f64.get((3, 0)).unwrap());
    assert_eq!(None, mat_f64.get((9, 9)));
}

#[test]
fn turn() {
    let cases = vec![
        ((North, East), Right),
        ((East, South), Right),
        ((South, West), Right),
        ((West, North), Right),
        ((North, West), Left),
        ((West, South), Left),
        ((South, East), Left),
        ((East, North), Left),
        ((North, North), Front),
        ((West, West), Front),
        ((South, South), Front),
        ((East, East), Front),
        ((North, South), Back),
        ((West, East), Back),
        ((South, North), Back),
        ((East, West), Back),
    ];
    for ((from, to), relative) in cases.into_iter() {
        assert_eq!(from.turn(relative), to);
        assert_eq!(from.should_turn(to), relative);
    }
}

#[test]
fn absolute_direction_of_lane() {
    let cases = vec![
        ((Vertical, HighToLow), North),
        ((Vertical, LowToHigh), South),
        ((Horizontal, HighToLow), East),
        ((Horizontal, LowToHigh), West),
    ];
    for ((axis_direction, lane_direction), absolute) in cases.into_iter() {
        assert_eq!(
            AbsoluteDirection::of_lane(axis_direction, lane_direction),
            absolute
        );
    }
}

#[test]
fn test_offset() {
    let m = mpi_traffic::util::matrix::Matrix::with_shape(3.14, (7, 9));
    let mut n = 0;
    for i in 0..7 {
        for j in 0..9 {
            assert_eq!(m.offset((i, j)), Some(n));
            assert_eq!(m.offset_unchecked((i, j)), n);
            assert_eq!(m.index_from_offset(n), Some((i, j)));
            assert_eq!(m.index_from_offset_unchecked(n), (i, j));
            n += 1;
        }
    }
    assert_eq!(m.offset((7, 3)), None);
    assert_eq!(m.offset((3, 9)), None);
    assert_eq!(m.index_from_offset(64), None);
}

#[test]
fn empty_matrix() {
    let m = mpi_traffic::util::matrix::Matrix::with_shape(3.14, (0, 0));
    assert_eq!(m.shape(), (0, 0));
}

#[test]
fn normal_matrix() {
    let mut m = mpi_traffic::util::matrix::Matrix::with_shape(3.14, (7, 9));
    m.set((3, 0), 4.14);
    for i in 0..7 {
        for j in 0..9 {
            assert_eq!(
                m.get((i, j)).cloned(),
                Some(if (i, j) == (3, 0) { 4.14 } else { 3.14 })
            );
        }
    }
    assert_eq!((7, 9), m.shape());
    assert_eq!(None, m.get((9, 9)));
}

#[test]
fn matrix_indices() {
    let shape = (7, 9);
    let (n, m) = shape;
    let mat = mpi_traffic::util::matrix::Matrix::with_shape(3.14, shape);
    let indices = mat.indices();
    let mut next = 0;
    for i in 0..n {
        for j in 0..m {
            assert_eq!(indices[next], (i, j));
            next += 1;
        }
    }
}

#[test]
fn enumerate_mut() {
    let shape = (7, 9);
    let (m, n) = shape;
    let mut mat = mpi_traffic::util::matrix::Matrix::with_shape(3.14, shape);
    let v = |i, j| i as f64 * 10.0 + j as f64;
    for (i, j) in mat.indices() {
        mat.set((i, j), v(i, j));
    }
    for i in 0..m {
        for j in 0..n {
            assert_eq!(*mat.get((i, j)).unwrap(), v(i, j));
        }
    }
}

#[test]
fn enumerate() {
    let mut mat = mpi_traffic::util::matrix::Matrix::with_shape(3.14, (7, 9));
    let v = |i, j| i as f64 * 10.0 + j as f64;
    for (i, j) in mat.indices() {
        mat.set((i, j), v(i, j));
    }
    for (i, j) in mat.indices() {
        assert_eq!(*mat.get((i, j)).unwrap(), v(i, j));
    }
}

fn example_city() -> stateless::City {
    stateless::City {
        board: Board::with_shape(None, None, (3, 3)),
        car_out_intersection: (0, 0),
        car_out_min_distance: 10,
        lane_width: 4,
        horizontal_road_length: vec![500, 500],
        vertical_road_length: vec![500, 500],
        intersection_height: vec![20, 20, 20],
        intersection_width: vec![20, 20, 20],
    }
}

#[test]
fn intersection_center() {
    let city = example_city();
    let answer = [
        [(10, 10), (530, 10), (1050, 10)],
        [(10, 530), (530, 530), (1050, 530)],
        [(10, 1050), (530, 1050), (1050, 1050)],
    ];
    for (i, j) in city.board.intersections.indices() {
        let Position { x, y } = city.intersection_center((i, j));
        assert_eq!((x, y), answer[i][j], "position: {:?}", (i, j));
    }
}

#[test]
fn geometry() {
    let city = example_city();
    let Position { x, y } = city.intersection_center((2, 2));
    let width = x + city.intersection_width[2] / 2;
    let height = y + city.intersection_height[2] / 2;
    assert_eq!(Geometry { width, height }, city.geometry());
}

#[test]
fn horizontal_roads_center() {
    let city = example_city();
    let answer = [
        [(270, 10), (790, 10)],
        [(270, 530), (790, 530)],
        [(270, 1050), (790, 1050)],
    ];
    for (i, j) in city.board.horizontal_roads.indices() {
        let Position { x, y } = city.horizontal_road_center((i, j));
        assert_eq!((x, y), answer[i][j], "position: {:?}", (i, j));
    }
}

#[test]
fn vertical_roads_center() {
    let city = example_city();
    let answer = [
        [(10, 270), (530, 270), (1050, 270)],
        [(10, 790), (530, 790), (1050, 790)],
    ];
    for (i, j) in city.board.vertical_roads.indices() {
        let Position { x, y } = city.vertical_road_center((i, j));
        assert_eq!((x, y), answer[i][j], "position: {:?}", (i, j));
    }
}

#[test]
fn distance_is_rounded_euclidean() {
    let a = Position { x: 0, y: 0 };
    let b = Position { x: 3, y: 4 };
    assert_eq!(a.distance(b), 5);
    let c = Position { x: 1, y: 1 };
    assert_eq!(a.distance(c), 1);
}
