use liquid_crystal_ui::ScreenCoordinates;
use liquid_crystal_ui::storage::AllocStorage;
use liquid_crystal_ui::storage::Storage;
use liquid_crystal_ui::ui::transition::Transition;

type Text = <AllocStorage as Storage>::Text;

#[test]
fn at_puts_x_in_the_column_and_y_in_the_row() {
    let c = ScreenCoordinates::at(12, 3);
    assert_eq!(c.x(), 12);
    assert_eq!(c.col(), 12);
    assert_eq!(c.y(), 3);
    assert_eq!(c.row(), 3);
}

#[test]
fn a_tuple_is_x_then_y() {
    let c: ScreenCoordinates = (7, 1).into();
    assert_eq!(c, ScreenCoordinates::at(7, 1));
    assert_ne!(c, ScreenCoordinates::at(1, 7));
}

#[test]
fn coordinates_order_by_row_first() {
    assert!(ScreenCoordinates::at(15, 0) < ScreenCoordinates::at(0, 1));
    assert!(ScreenCoordinates::at(2, 1) < ScreenCoordinates::at(3, 1));
}

#[test]
fn wait_makes_a_wait_transition() {
    match Transition::<Text>::wait(20) {
        Transition::Wait { duration } => assert_eq!(duration, 20),
        _ => panic!("expected a wait"),
    }
}

#[test]
fn move_to_takes_a_tuple() {
    match Transition::<Text>::move_to((12, 0), 20) {
        Transition::MoveTo { new, duration } => {
            assert_eq!(new, ScreenCoordinates::at(12, 0));
            assert_eq!(duration, 20);
        }
        _ => panic!("expected a move"),
    }
}

#[test]
fn move_from_to_keeps_both_ends() {
    match Transition::<Text>::move_from_to((0, 1), ScreenCoordinates::at(5, 2), 4) {
        Transition::MoveToExt { old, new, duration } => {
            assert_eq!(old, ScreenCoordinates::at(0, 1));
            assert_eq!(new, ScreenCoordinates::at(5, 2));
            assert_eq!(duration, 4);
        }
        _ => panic!("expected a move"),
    }
}
