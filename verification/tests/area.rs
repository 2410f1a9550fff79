use traffic_control::coordinate::Coordinate;
use traffic_control::traffic_area::TrafficArea;

#[test]
fn new_grid_has_given_dimensions_and_is_empty() {
    let area = TrafficArea::new(2, 3, 4);
    let grid = area.get_area();
    assert_eq!(grid.len(), 3);
    for column in grid {
        assert_eq!(column.len(), 4);
        for cell in column {
            assert_eq!(cell.len(), 2);
            for slot in cell {
                assert_eq!(*slot, -1);
            }
        }
    }
}

#[test]
fn place_then_get_position_then_remove_round_trip() {
    let mut area = TrafficArea::new(1, 4, 3);
    let c = Coordinate::new(1, 2);
    assert!(area.place(5, &c).is_ok());
    let found = area.get_position(5).expect("id placed, so it must be found");
    assert_eq!(found.get_x(), 1);
    assert_eq!(found.get_y(), 2);
    assert!(area.remove(5, &c).is_ok());
    assert!(area.get_position(5).is_none());
}

#[test]
fn place_respects_capacity() {
    let mut area = TrafficArea::new(2, 2, 2);
    let c = Coordinate::new(1, 1);
    assert!(area.is_free(&c));
    assert!(area.place(10, &c).is_ok());
    assert!(area.is_free(&c));
    assert!(area.place(11, &c).is_ok());
    assert!(!area.is_free(&c));
    let err = area.place(12, &c).unwrap_err();
    assert_eq!(err.message, "no empty space left");
    // The failed place left the cell as it was.
    assert_eq!(area.get_area()[1][1], vec![10, 11]);
}

#[test]
fn remove_of_absent_id_fails_and_changes_nothing() {
    let mut area = TrafficArea::new(1, 2, 2);
    let c = Coordinate::new(0, 1);
    assert!(area.place(3, &c).is_ok());
    let err = area.remove(4, &c).unwrap_err();
    assert_eq!(err.message, "id not found at start");
    assert_eq!(area.get_area()[0][1], vec![3]);
}

#[test]
fn place_of_sentinel_id_trips_duplicate_guard() {
    // The defensive duplicate check compares the found empty slot with the
    // id to place; only the empty sentinel itself can compare equal.
    let mut area = TrafficArea::new(1, 2, 2);
    let c = Coordinate::new(0, 0);
    let err = area.place(-1, &c).unwrap_err();
    assert_eq!(err.message, "id already placed at target position");
    assert_eq!(area.get_area()[0][0], vec![-1]);
}

#[test]
fn clear_empties_every_slot_whatever_came_before() {
    let mut area = TrafficArea::new(2, 3, 2);
    assert!(area.place(1, &Coordinate::new(0, 0)).is_ok());
    assert!(area.place(2, &Coordinate::new(0, 0)).is_ok());
    assert!(area.place(3, &Coordinate::new(2, 1)).is_ok());
    area.clear();
    for column in area.get_area() {
        for cell in column {
            for slot in cell {
                assert_eq!(*slot, -1);
            }
        }
    }
    // Clearing again changes nothing.
    area.clear();
    for column in area.get_area() {
        for cell in column {
            assert_eq!(cell, &vec![-1, -1]);
        }
    }
}

#[test]
fn set_area_restores_a_snapshot() {
    let mut area = TrafficArea::new(1, 2, 2);
    assert!(area.place(7, &Coordinate::new(1, 0)).is_ok());
    let snapshot = area.get_area().clone();
    area.clear();
    assert!(area.get_position(7).is_none());
    area.set_area(snapshot);
    let found = area.get_position(7).expect("snapshot holds id 7");
    assert_eq!(found.get_x(), 1);
    assert_eq!(found.get_y(), 0);
}

#[test]
fn get_position_returns_first_cell_in_scan_order() {
    // The grid itself does not police duplicates (that is the logic's job);
    // the lookup scans x ascending, then y ascending.
    let mut area = TrafficArea::new(1, 3, 2);
    assert!(area.place(4, &Coordinate::new(2, 0)).is_ok());
    assert!(area.place(4, &Coordinate::new(0, 1)).is_ok());
    let found = area.get_position(4).unwrap();
    assert_eq!(found.get_x(), 0);
    assert_eq!(found.get_y(), 1);
}
