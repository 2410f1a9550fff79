use traffic_control::coordinate::Coordinate;
use traffic_control::movement_not_possible::MovementNotPossible;

#[test]
fn coordinate_keeps_its_components() {
    let c = Coordinate::new(3, -2);
    assert_eq!(c.get_x(), 3);
    assert_eq!(c.get_y(), -2);
    assert_eq!(c.x, 3);
    assert_eq!(c.y, -2);
}

#[test]
fn default_coordinate_is_the_unset_sentinel() {
    let c = Coordinate::default();
    assert_eq!((c.get_x(), c.get_y()), (-1, -1));
}

#[test]
fn error_carries_its_message() {
    let e = MovementNotPossible::new("no empty space left");
    assert_eq!(e.message, "no empty space left");
    assert_eq!(e.get_message(), "no empty space left");
}
