use raytracer::march::{heads_forwards, nearest_wall, Axis, Cell, Walk, GRID_LIMIT};
use raytracer::scalar::Scalar;

fn scalar(value: f64) -> Scalar {
    Scalar::from_bits(value.to_bits())
}

fn wall(x: f64, y: f64, z: f64) -> Axis {
    nearest_wall(scalar(x), scalar(y), scalar(z))
}

#[test]
fn nearest_wall_is_the_one_with_the_least_distance() {
    assert_eq!(wall(1.0, 2.0, 3.0), Axis::X);
    assert_eq!(wall(2.0, 1.0, 3.0), Axis::Y);
    assert_eq!(wall(3.0, 2.0, 1.0), Axis::Z);
    assert_eq!(wall(1.0, 3.0, 0.5), Axis::Z);
    assert_eq!(wall(f64::MAX, f64::MAX, 0.25), Axis::Z);
}

#[test]
fn nearest_wall_on_ties() {
    assert_eq!(wall(1.0, 1.0, 1.0), Axis::Z);
    assert_eq!(wall(1.0, 1.0, 2.0), Axis::Y);
    assert_eq!(wall(1.0, 2.0, 1.0), Axis::Z);
    assert_eq!(wall(2.0, 1.0, 1.0), Axis::Z);
}

#[test]
fn heads_forwards_unless_the_direction_is_below_zero() {
    assert!(heads_forwards(scalar(1.0)));
    assert!(heads_forwards(scalar(0.0)));
    assert!(heads_forwards(scalar(-0.0)));
    assert!(!heads_forwards(scalar(-1e-300)));
    assert!(!heads_forwards(scalar(-1.0)));
}

#[test]
fn moved_steps_one_cell_along_one_axis() {
    let cell = Cell::new(1, 2, 3);
    assert_eq!(cell.moved(Axis::X, true), Cell::new(2, 2, 3));
    assert_eq!(cell.moved(Axis::X, false), Cell::new(0, 2, 3));
    assert_eq!(cell.moved(Axis::Y, true), Cell::new(1, 3, 3));
    assert_eq!(cell.moved(Axis::Y, false), Cell::new(1, 1, 3));
    assert_eq!(cell.moved(Axis::Z, true), Cell::new(1, 2, 4));
    assert_eq!(cell.moved(Axis::Z, false), Cell::new(1, 2, 2));
}

#[test]
fn standing_knows_the_marked_cell_and_the_edge_of_the_grid() {
    assert_eq!(Cell::new(0, 0, -4).standing(), Walk::Arrived);
    assert_eq!(Cell::new(0, 0, -3).standing(), Walk::Underway);
    assert_eq!(Cell::new(0, 0, 0).standing(), Walk::Underway);
    assert_eq!(Cell::new(GRID_LIMIT, -GRID_LIMIT, GRID_LIMIT).standing(), Walk::Underway);
    assert_eq!(Cell::new(GRID_LIMIT + 1, 0, 0).standing(), Walk::Lost);
    assert_eq!(Cell::new(0, -GRID_LIMIT - 1, 0).standing(), Walk::Lost);
    assert_eq!(Cell::new(0, 0, 101).standing(), Walk::Lost);
    assert_eq!(Cell::new(0, 0, -101).standing(), Walk::Lost);
}

#[test]
fn a_walk_straight_down_the_z_axis_arrives_after_four_steps() {
    let mut cell = Cell::new(0, 0, 0);
    let mut steps = 0;
    while cell.standing() == Walk::Underway {
        cell = cell.moved(Axis::Z, heads_forwards(scalar(-1.0)));
        steps += 1;
    }
    assert_eq!(cell.standing(), Walk::Arrived);
    assert_eq!(steps, 4);
}

#[test]
fn a_walk_along_x_is_lost_after_a_hundred_and_one_steps() {
    let mut cell = Cell::new(0, 0, 0);
    let mut steps = 0;
    while cell.standing() == Walk::Underway {
        cell = cell.moved(Axis::X, true);
        steps += 1;
    }
    assert_eq!(cell.standing(), Walk::Lost);
    assert_eq!(steps, 101);
}

#[test]
fn moved_at_the_ends_of_the_machine_range() {
    assert_eq!(Cell::new(i32::MAX, 0, 0).moved(Axis::X, false), Cell::new(i32::MAX - 1, 0, 0));
    assert_eq!(Cell::new(0, i32::MIN, 0).moved(Axis::Y, true), Cell::new(0, i32::MIN + 1, 0));
    assert_eq!(Cell::new(i32::MAX, i32::MIN, 7).moved(Axis::Z, true), Cell::new(i32::MAX, i32::MIN, 8));
}
