use td_lib::dirty_indicator::DirtyIndicator;
use td_lib::keybinds::{
    KeyCode, LeftRightKey, LeftRightKeybind, UpDownExtendedKey, UpDownExtendedKeybind, UpDownKey,
    UpDownKeybind,
};
use td_lib::modal::ConfirmationModal;
use td_lib::undo::UndoWrapper;

#[test]
fn confirmation_modal_lifecycle() {
    let mut modal = ConfirmationModal::new("Delete task?".to_string()).with_title("Delete".to_string());
    assert!(!modal.is_open());
    modal.open(true);
    assert!(modal.is_open());
    assert!(modal.close());
    assert!(!modal.is_open());
    modal.open(false);
    assert!(!modal.close());
    assert!(!modal.close());
}

#[test]
fn left_right_keys() {
    let kb = LeftRightKeybind::new("Choose option");
    assert_eq!(kb.get_match(KeyCode::Left), Some(LeftRightKey::Left));
    assert_eq!(kb.get_match(KeyCode::Right), Some(LeftRightKey::Right));
    assert_eq!(kb.get_match(KeyCode::Up), None);
    assert!(!kb.is_match(KeyCode::Other));
    assert_eq!(kb.key_hint(), "⇆");
    assert_eq!(kb.description(), "Choose option");
}

#[test]
fn up_down_keys() {
    let kb = UpDownKeybind::new("Navigate list");
    assert_eq!(kb.get_match(KeyCode::Up), Some(UpDownKey::Up));
    assert_eq!(kb.get_match(KeyCode::Down), Some(UpDownKey::Down));
    assert_eq!(kb.get_match(KeyCode::PageUp), None);
    assert!(kb.is_match(KeyCode::Down));
    assert_eq!(kb.key_hint(), "⇅");
}

#[test]
fn up_down_extended_keys() {
    let kb = UpDownExtendedKeybind::new("Navigate list");
    assert_eq!(kb.get_match(KeyCode::Home), Some(UpDownExtendedKey::Home));
    assert_eq!(kb.get_match(KeyCode::End), Some(UpDownExtendedKey::End));
    assert_eq!(kb.get_match(KeyCode::PageDown), Some(UpDownExtendedKey::PageDown));
    assert_eq!(kb.get_match(KeyCode::Left), None);
    assert!(!kb.is_match(KeyCode::Right));
}

#[test]
fn dirty_indicator_marks_unsaved_state() {
    let mut history = UndoWrapper::new(0u8);
    assert_eq!(DirtyIndicator::text(&history), "*");
    history.mark_clean();
    assert_eq!(DirtyIndicator::text(&history), " ");
}
