use chip8::keypad::Keypad;

#[test]
fn a_keypad_starts_with_no_key_held() {
    let pad = Keypad::new();
    for key in 0..=255u8 {
        assert!(!pad.is_held(key));
    }
    assert_eq!(pad.first_held(), None);
}

#[test]
fn keys_go_down_and_up() {
    let mut pad = Keypad::new();
    pad.set(0xB, true);
    pad.set(0x4, true);
    assert!(pad.is_held(0xB));
    assert!(pad.is_held(0x4));
    assert!(!pad.is_held(0x5));
    assert_eq!(pad.first_held(), Some(0x4));
    pad.set(0x4, false);
    assert_eq!(pad.first_held(), Some(0xB));
    pad.set(0xF, true);
    assert_eq!(pad.first_held(), Some(0xB));
    pad.set(0xB, false);
    assert_eq!(pad.first_held(), Some(0xF));
    pad.set(0xF, false);
    assert_eq!(pad.first_held(), None);
}

#[test]
fn a_key_is_asked_for_by_the_low_nibble() {
    let mut pad = Keypad::new();
    pad.set(0x3, true);
    assert!(pad.is_held(0x03));
    assert!(pad.is_held(0x13));
    assert!(pad.is_held(0xF3));
    assert!(!pad.is_held(0x30));
}

#[test]
fn values_above_f_set_no_key() {
    let mut pad = Keypad::new();
    pad.set(0x10, true);
    pad.set(0xFF, true);
    assert_eq!(pad.first_held(), None);
    pad.set(0x0, true);
    pad.set(0x10, false);
    assert_eq!(pad.first_held(), Some(0));
}
