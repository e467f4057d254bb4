use taiko::input::{KeyMap, KeyboardState};

const KEY_F: u32 = 70;
const KEY_J: u32 = 74;

#[test]
fn unseen_keys_are_not_pressed() {
    let k = KeyboardState::new();
    assert!(!k.is_pressed(KEY_F));
    assert!(!k.is_just_pressed(KEY_F));
    assert!(!k.is_just_released(KEY_F));
}

#[test]
fn pressing_and_releasing_a_key() {
    let mut k = KeyboardState::new();
    k.handle_input(KEY_F, true);
    assert!(k.is_pressed(KEY_F));
    assert!(k.is_just_pressed(KEY_F));
    assert!(!k.is_pressed(KEY_J));
    k.handle_input(KEY_F, false);
    assert!(!k.is_pressed(KEY_F));
    assert!(!k.is_just_pressed(KEY_F));
    // the last frame is never recorded as pressed, so no key reads as just released
    assert!(!k.is_just_released(KEY_F));
    k.handle_input(KEY_J, true);
    assert!(k.is_pressed(KEY_J));
    assert!(!k.is_pressed(KEY_F));
}

#[test]
fn default_drum_keys() {
    let m = KeyMap::default();
    assert!(m.key_is_don("KeyF"));
    assert!(m.key_is_don("KeyJ"));
    assert!(!m.key_is_don("KeyD"));
    assert!(m.key_is_kat("KeyD"));
    assert!(m.key_is_kat("KeyK"));
    assert!(!m.key_is_kat("KeyF"));
    assert!(m.key_is_don_or_kat("KeyK"));
    assert!(!m.key_is_don_or_kat("Escape"));
}
