use traffic_control::coordinate::Coordinate;
use traffic_control::traffic_area::TrafficArea;
use traffic_control::traffic_control_logic::TrafficControlLogic;

fn dist2(a: &Coordinate, b: &Coordinate) -> i64 {
    let dx = i64::from(a.get_x()) - i64::from(b.get_x());
    let dy = i64::from(a.get_y()) - i64::from(b.get_y());
    dx * dx + dy * dy
}

#[test]
fn start_fills_entry_column_in_scan_order() {
    let mut logic = TrafficControlLogic::new(TrafficArea::new(1, 3, 2));
    let first = logic.start(1).unwrap();
    assert_eq!((first.get_x(), first.get_y()), (0, 0));
    let second = logic.start(2).unwrap();
    assert_eq!((second.get_x(), second.get_y()), (0, 1));
    let err = logic.start(3).unwrap_err();
    assert_eq!(err.message, "no free position found");
}

#[test]
fn start_of_present_client_fails() {
    let mut logic = TrafficControlLogic::new(TrafficArea::new(2, 3, 3));
    assert!(logic.start(1).is_ok());
    let err = logic.start(1).unwrap_err();
    assert_eq!(err.message, "client already available");
}

#[test]
fn move_of_absent_client_fails() {
    let mut logic = TrafficControlLogic::new(TrafficArea::new(1, 3, 3));
    let err = logic.move_to(9, Coordinate::new(1, 1)).unwrap_err();
    assert_eq!(err.message, "client not available");
}

#[test]
fn corner_neighbors_clamp_onto_the_grid() {
    // At (0, 0) the negative offsets fold back onto (0, 0)/(0, 1)/(1, 0)/
    // (1, 1); an out-of-grid target draws the client to the boundary without
    // any out-of-range access, and the corner itself counts as a neighbor.
    let mut logic = TrafficControlLogic::new(TrafficArea::new(1, 2, 2));
    assert!(logic.start(1).is_ok());
    let stay = logic.move_to(1, Coordinate::new(-5, -5)).unwrap();
    assert_eq!((stay.get_x(), stay.get_y()), (0, 0));
    let step = logic.move_to(1, Coordinate::new(1, 1)).unwrap();
    assert_eq!((step.get_x(), step.get_y()), (1, 1));
}

#[test]
fn example_walk_converges_to_the_target() {
    let mut logic = TrafficControlLogic::new(TrafficArea::new(1, 5, 1));
    let entry = logic.start(7).unwrap();
    assert_eq!((entry.get_x(), entry.get_y()), (0, 0));
    let target = Coordinate::new(4, 0);

    let mut at = entry;
    for expected_x in [1, 2, 3, 4] {
        let before = dist2(&at, &target);
        at = logic.move_to(7, target).unwrap();
        assert_eq!((at.get_x(), at.get_y()), (expected_x, 0));
        assert!(dist2(&at, &target) <= before);
    }
    // Arrived: further calls stay put.
    let still = logic.move_to(7, target).unwrap();
    assert_eq!((still.get_x(), still.get_y()), (4, 0));
}

#[test]
fn step_picks_nearest_free_neighbor_around_occupied_cells() {
    let mut logic = TrafficControlLogic::new(TrafficArea::new(1, 3, 3));
    assert!(logic.start(1).is_ok()); // (0, 0)
    assert!(logic.start(2).is_ok()); // (0, 1) — blocks the straight path
    let target = Coordinate::new(0, 2);
    let before = dist2(&Coordinate::new(0, 0), &target);
    let stepped = logic.move_to(1, target).unwrap();
    assert_eq!((stepped.get_x(), stepped.get_y()), (1, 1));
    assert!(dist2(&stepped, &target) <= before);
}

#[test]
fn client_stays_put_when_already_at_target() {
    let mut logic = TrafficControlLogic::new(TrafficArea::new(1, 3, 3));
    assert!(logic.start(1).is_ok());
    let at = logic.move_to(1, Coordinate::new(0, 0)).unwrap();
    assert_eq!((at.get_x(), at.get_y()), (0, 0));
}

#[test]
fn no_two_slots_hold_the_same_id_across_calls() {
    let mut logic = TrafficControlLogic::new(TrafficArea::new(2, 3, 2));
    assert!(logic.start(1).is_ok());
    assert!(logic.start(2).is_ok());
    assert!(logic.start(3).is_ok());
    assert!(logic.move_to(1, Coordinate::new(2, 1)).is_ok());
    assert!(logic.move_to(2, Coordinate::new(2, 0)).is_ok());
    assert!(logic.move_to(1, Coordinate::new(2, 1)).is_ok());
    assert!(logic.move_to(3, Coordinate::new(0, 0)).is_ok());

    let mut seen: Vec<i16> = Vec::new();
    for column in logic.get_traffic_area().get_area() {
        for cell in column {
            for slot in cell {
                if *slot != -1 {
                    assert!(!seen.contains(slot), "id {} occupies two slots", slot);
                    seen.push(*slot);
                }
            }
        }
    }
    assert_eq!(seen.len(), 3);
}
