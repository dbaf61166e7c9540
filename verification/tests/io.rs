use chip8::display::Framebuffer;
use chip8::io::{
    byte_to_scancode, keypad_from_scancodes, lit_rects, scancode_to_byte, PixelRect,
    DISPLAY_HEIGHT, DISPLAY_WIDTH, PIXEL_SIZE,
};

#[test]
fn the_display_is_128_by_64() {
    assert_eq!(DISPLAY_WIDTH, 128);
    assert_eq!(DISPLAY_HEIGHT, 64);
    assert_eq!(DISPLAY_WIDTH as usize, chip8::display::WIDTH);
    assert_eq!(DISPLAY_HEIGHT as usize, chip8::display::HEIGHT);
    assert_eq!(PIXEL_SIZE, 8);
}

#[test]
fn keypad_keys_have_their_scancodes() {
    let layout: [(u8, i32); 16] = [
        (0x0, 27),
        (0x1, 30),
        (0x2, 31),
        (0x3, 32),
        (0x4, 20),
        (0x5, 26),
        (0x6, 8),
        (0x7, 4),
        (0x8, 22),
        (0x9, 7),
        (0xA, 29),
        (0xB, 6),
        (0xC, 33),
        (0xD, 21),
        (0xE, 9),
        (0xF, 25),
    ];
    for (key, code) in layout {
        assert_eq!(byte_to_scancode(key), Some(code));
        assert_eq!(scancode_to_byte(code), Some(key));
    }
}

#[test]
fn bytes_above_f_name_no_key() {
    for byte in 16..=255u8 {
        assert_eq!(byte_to_scancode(byte), None);
    }
}

#[test]
fn the_layout_is_its_own_inverse() {
    for key in 0..16u8 {
        let code = byte_to_scancode(key).unwrap();
        assert_eq!(scancode_to_byte(code), Some(key));
    }
    let mut mapped = 0;
    for code in -10..600i32 {
        if let Some(key) = scancode_to_byte(code) {
            assert_eq!(byte_to_scancode(key), Some(code));
            mapped += 1;
        }
    }
    assert_eq!(mapped, 16);
    assert_eq!(scancode_to_byte(5), None);
    assert_eq!(scancode_to_byte(0), None);
    assert_eq!(scancode_to_byte(i32::MAX), None);
    assert_eq!(scancode_to_byte(i32::MIN), None);
}

#[test]
fn the_keypad_holds_the_keys_whose_scancodes_are_pressed() {
    let pad = keypad_from_scancodes(&[44, 21, 27, 5, 21, 4]);
    for key in 0..16u8 {
        assert_eq!(pad.is_held(key), key == 0xD || key == 0x0 || key == 0x7);
    }
    assert_eq!(pad.first_held(), Some(0x0));
    let pad = keypad_from_scancodes(&[]);
    assert_eq!(pad.first_held(), None);
    let pad = keypad_from_scancodes(&[5, 44, 100]);
    assert_eq!(pad.first_held(), None);
}

#[test]
fn a_blank_display_has_nothing_to_paint() {
    assert_eq!(lit_rects(&Framebuffer::new()), vec![]);
}

#[test]
fn each_lit_pixel_is_painted_as_a_square_row_by_row() {
    let mut fb = Framebuffer::new();
    fb.draw_sprite(&[0x80, 0x00, 0x41], 126, 62);
    let square = |x: i32, y: i32| PixelRect { x, y, width: 8, height: 8 };
    assert_eq!(
        lit_rects(&fb),
        vec![square(5 * 8, 0), square(127 * 8, 0), square(126 * 8, 62 * 8)]
    );
}

#[test]
fn a_full_display_paints_every_pixel_once() {
    let mut fb = Framebuffer::new();
    for y in (0..64).step_by(8) {
        for x in (0..128).step_by(8) {
            fb.draw_sprite(&[0xFF; 8], x as u8, y as u8);
        }
    }
    let rects = lit_rects(&fb);
    assert_eq!(rects.len(), 128 * 64);
    for (k, rect) in rects.iter().enumerate() {
        let expected = PixelRect {
            x: (k % 128) as i32 * 8,
            y: (k / 128) as i32 * 8,
            width: 8,
            height: 8,
        };
        assert_eq!(*rect, expected);
    }
}
