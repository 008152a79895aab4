use orbital::{div_ceil, CursorAction, FocusState, MoveKey, MovementKeys};

#[test]
fn focus_starts_focused_and_free() {
    let f = FocusState::default();
    assert!(f.window_focused);
    assert!(!f.grabbed);
    assert!(!f.input_active());
}

#[test]
fn click_grabs_and_escape_releases() {
    let mut f = FocusState::default();
    assert_eq!(f.on_buttons(false, false), CursorAction::Keep);
    assert!(!f.grabbed);
    assert_eq!(f.on_buttons(true, false), CursorAction::Grab);
    assert!(f.input_active());
    assert_eq!(f.on_buttons(false, false), CursorAction::Keep);
    assert!(f.grabbed);
    assert_eq!(f.on_buttons(false, true), CursorAction::Release);
    assert!(!f.grabbed);
    assert_eq!(f.on_buttons(true, true), CursorAction::Release);
    assert!(!f.grabbed);
}

#[test]
fn only_primary_window_focus_counts() {
    let mut f = FocusState::default();
    f.on_buttons(true, false);
    f.on_focus_changed(false, false);
    assert!(f.input_active());
    f.on_focus_changed(true, false);
    assert!(!f.window_focused);
    assert!(f.grabbed);
    assert!(!f.input_active());
    f.on_focus_changed(true, true);
    assert!(f.input_active());
}

#[test]
fn net_movement_of_held_keys() {
    let mut k = MovementKeys::new();
    assert_eq!(k.net_movement(), (0, 0, 0));
    k.set_key(MoveKey::Forward, true);
    k.set_key(MoveKey::Left, true);
    k.set_key(MoveKey::Down, true);
    assert_eq!(k.net_movement(), (-1, 1, -1));
    k.set_key(MoveKey::Back, true);
    k.set_key(MoveKey::Right, true);
    k.set_key(MoveKey::Up, true);
    assert_eq!(k.net_movement(), (0, 0, 0));
    k.set_key(MoveKey::Forward, false);
    k.set_key(MoveKey::Left, false);
    assert_eq!(k.net_movement(), (1, -1, 0));
}

#[test]
fn div_ceil_rounds_up() {
    assert_eq!(div_ceil(1, 64), 1);
    assert_eq!(div_ceil(64, 64), 1);
    assert_eq!(div_ceil(65, 64), 2);
    assert_eq!(div_ceil(128, 64), 2);
    assert_eq!(div_ceil(7, 1), 7);
    assert_eq!(div_ceil(u32::MAX, 2), 2_147_483_648);
    assert_eq!(div_ceil(u32::MAX, u32::MAX), 1);
}
