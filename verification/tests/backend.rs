use liquid_crystal_ui::ScreenCoordinates;
use liquid_crystal_ui::backend::{clamped_cursor, custom_character_slot};
use liquid_crystal_ui::error::{StorageError, UiError};

#[test]
fn the_cursor_is_clamped_to_the_display() {
    assert_eq!(clamped_cursor(ScreenCoordinates::at(3, 1), 20, 4), (1, 3));
    assert_eq!(clamped_cursor(ScreenCoordinates::at(25, 9), 20, 4), (4, 20));
    assert_eq!(clamped_cursor(ScreenCoordinates::at(20, 4), 20, 4), (4, 20));
}

#[test]
fn custom_characters_go_to_slots_in_range() {
    assert_eq!(custom_character_slot(0, 8), Some(0));
    assert_eq!(custom_character_slot(7, 8), Some(7));
    assert_eq!(custom_character_slot(8, 8), None);
}

#[test]
fn storage_errors_say_what_went_wrong() {
    assert_eq!(StorageError::NotEnoughStorage.message(), "Not enough space in the container.");
    let e: UiError<u8> = UiError::from_storage(StorageError::NotEnoughStorage);
    assert!(matches!(e, UiError::Storage(StorageError::NotEnoughStorage)));
    let b: UiError<u8> = UiError::from_backend(7);
    assert!(matches!(b, UiError::Backend(7)));
}
