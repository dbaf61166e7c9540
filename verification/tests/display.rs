use chip8::chip::Chip;
use chip8::display::Framebuffer;
use chip8::error::ChipError;
use chip8::keypad::Keypad;
use chip8::machine::Action;

fn lit(fb: &Framebuffer) -> Vec<(usize, usize)> {
    let mut out = Vec::new();
    for y in 0..64 {
        for x in 0..128 {
            if fb.pixel(x, y) {
                out.push((x, y));
            }
        }
    }
    out
}

fn run(chip: &mut Chip, opcode: u16) -> Action {
    chip.execute(opcode, &Keypad::new(), 0).unwrap()
}

#[test]
fn a_new_display_is_blank() {
    let fb = Framebuffer::new();
    assert_eq!(lit(&fb), vec![]);
}

#[test]
fn a_sprite_row_is_drawn_most_significant_bit_first() {
    let mut fb = Framebuffer::new();
    assert!(!fb.draw_sprite(&[0b1010_0001], 10, 20));
    assert_eq!(lit(&fb), vec![(10, 20), (12, 20), (17, 20)]);
}

#[test]
fn sprite_rows_go_down_the_display() {
    let mut fb = Framebuffer::new();
    assert!(!fb.draw_sprite(&[0x80, 0x40, 0x01], 0, 0));
    assert_eq!(lit(&fb), vec![(0, 0), (1, 1), (7, 2)]);
}

#[test]
fn drawing_flips_pixels_and_reports_erasing() {
    let mut fb = Framebuffer::new();
    assert!(!fb.draw_sprite(&[0b1100_0000], 0, 0));
    assert!(fb.draw_sprite(&[0b0110_0000], 0, 0));
    assert_eq!(lit(&fb), vec![(0, 0), (2, 0)]);
    assert!(!fb.draw_sprite(&[0b0101_0000], 0, 0));
    assert_eq!(lit(&fb), vec![(0, 0), (1, 0), (2, 0), (3, 0)]);
}

#[test]
fn drawing_twice_restores_the_display() {
    let mut fb = Framebuffer::new();
    fb.draw_sprite(&[0xFF, 0x81, 0xFF], 3, 3);
    let before = lit(&fb);
    let sprite = [0x3C, 0x42, 0x99, 0xA5, 0x81];
    for (x, y) in [(0u8, 0u8), (2, 2), (5, 4), (125, 62), (255, 255), (127, 63)] {
        let mut erases = false;
        for (r, row) in sprite.iter().enumerate() {
            for c in 0..8usize {
                let under = ((x as usize + c) % 128, (y as usize + r) % 64);
                if (row >> (7 - c)) & 1 == 1 && before.contains(&under) {
                    erases = true;
                }
            }
        }
        let first = fb.draw_sprite(&sprite, x, y);
        assert_ne!(lit(&fb), before);
        assert_eq!(first, erases);
        let second = fb.draw_sprite(&sprite, x, y);
        assert_eq!(lit(&fb), before);
        assert!(second);
    }
}

#[test]
fn the_second_draw_collides_exactly_if_the_sprite_has_a_set_bit() {
    for sprite in [vec![], vec![0u8], vec![0, 0, 0], vec![0x01], vec![0, 0x10, 0], vec![0xFF; 15]] {
        let mut fb = Framebuffer::new();
        assert!(!fb.draw_sprite(&sprite, 60, 30));
        let second = fb.draw_sprite(&sprite, 60, 30);
        assert_eq!(second, sprite.iter().any(|row| *row != 0));
        assert_eq!(lit(&fb), vec![]);
    }
}

#[test]
fn the_second_draw_does_not_collide_where_the_first_only_erased() {
    let mut fb = Framebuffer::new();
    fb.draw_sprite(&[0xFF], 0, 0);
    assert!(fb.draw_sprite(&[0x3C], 0, 0));
    assert!(!fb.draw_sprite(&[0x3C], 0, 0));
    assert_eq!(lit(&fb).len(), 8);
}

#[test]
fn a_sprite_at_the_bottom_right_pixel_wraps_to_the_top_left() {
    let mut fb = Framebuffer::new();
    assert!(!fb.draw_sprite(&[0b1100_0001, 0b1000_0001], 127, 63));
    assert_eq!(lit(&fb), vec![(6, 0), (127, 0), (0, 63), (6, 63), (127, 63)]);
}

#[test]
fn origins_wrap_like_the_pixels() {
    let mut a = Framebuffer::new();
    let mut b = Framebuffer::new();
    a.draw_sprite(&[0xF0, 0x0F], 130, 70);
    b.draw_sprite(&[0xF0, 0x0F], 2, 6);
    assert_eq!(lit(&a), lit(&b));
    let mut c = Framebuffer::new();
    c.draw_sprite(&[0xF0, 0x0F], 255, 255);
    assert_eq!(
        lit(&c),
        vec![(3, 0), (4, 0), (5, 0), (6, 0), (0, 63), (1, 63), (2, 63), (127, 63)]
    );
}

#[test]
fn a_full_sprite_covers_eight_by_fifteen() {
    let mut fb = Framebuffer::new();
    assert!(!fb.draw_sprite(&[0xFF; 15], 120, 50));
    let pixels = lit(&fb);
    assert_eq!(pixels.len(), 8 * 15);
    for (x, y) in pixels {
        assert!(x >= 120 && (50..64).contains(&y) || x >= 120 && y == 0);
    }
}

#[test]
fn clear_turns_every_pixel_off() {
    let mut fb = Framebuffer::new();
    fb.draw_sprite(&[0xFF; 15], 0, 0);
    fb.draw_sprite(&[0xFF; 15], 100, 40);
    fb.clear();
    assert_eq!(lit(&fb), vec![]);
}

#[test]
fn the_draw_instruction_reads_the_sprite_at_the_index_register() {
    let mut chip = Chip::new(&[0xC0, 0x30, 0x0C, 0x03]).unwrap();
    run(&mut chip, 0x6105);
    run(&mut chip, 0x6207);
    run(&mut chip, 0xA201);
    assert_eq!(run(&mut chip, 0xD123), Action::Redraw);
    assert_eq!(lit(chip.framebuffer()), vec![(7, 7), (8, 7), (9, 8), (10, 8), (11, 9), (12, 9)]);
    assert_eq!(chip.register(0xF), 0);
    assert_eq!(chip.index(), 0x201);
    assert_eq!(chip.pc(), 0x200);
}

#[test]
fn the_draw_instruction_sets_the_flag_on_collision_and_clears_it_otherwise() {
    let mut chip = Chip::new(&[0xF0, 0x0F]).unwrap();
    run(&mut chip, 0xA200);
    run(&mut chip, 0x6F07);
    assert_eq!(run(&mut chip, 0xD011), Action::Redraw);
    assert_eq!(chip.register(0xF), 0);
    run(&mut chip, 0xA201);
    assert_eq!(run(&mut chip, 0xD011), Action::Redraw);
    assert_eq!(chip.register(0xF), 0);
    assert_eq!(lit(chip.framebuffer()).len(), 8);
    assert_eq!(run(&mut chip, 0xD011), Action::Redraw);
    assert_eq!(chip.register(0xF), 1);
    assert_eq!(lit(chip.framebuffer()), vec![(0, 0), (1, 0), (2, 0), (3, 0)]);
    run(&mut chip, 0xA300);
    assert_eq!(run(&mut chip, 0xD015), Action::Redraw);
    assert_eq!(chip.register(0xF), 0);
}

#[test]
fn the_draw_instruction_drawn_twice_restores_and_collides() {
    let mut chip = Chip::new(&[]).unwrap();
    run(&mut chip, 0x617E);
    run(&mut chip, 0x623D);
    run(&mut chip, 0xA050);
    run(&mut chip, 0xD125);
    let once = lit(chip.framebuffer());
    assert_eq!(once.len(), 14);
    assert_eq!(chip.register(0xF), 0);
    run(&mut chip, 0xD125);
    assert_eq!(lit(chip.framebuffer()), vec![]);
    assert_eq!(chip.register(0xF), 1);
}

#[test]
fn the_draw_instruction_uses_the_coordinates_from_before_it() {
    let mut chip = Chip::new(&[0x80]).unwrap();
    run(&mut chip, 0xA200);
    run(&mut chip, 0x6F09);
    run(&mut chip, 0x6003);
    assert_eq!(run(&mut chip, 0xDF01), Action::Redraw);
    assert_eq!(lit(chip.framebuffer()), vec![(9, 3)]);
    assert_eq!(chip.register(0xF), 0);
    run(&mut chip, 0x6F09);
    assert_eq!(run(&mut chip, 0xDF01), Action::Redraw);
    assert_eq!(lit(chip.framebuffer()), vec![]);
    assert_eq!(chip.register(0xF), 1);
}

#[test]
fn a_sprite_of_no_rows_draws_nothing() {
    let mut chip = Chip::new(&[0xFF]).unwrap();
    run(&mut chip, 0xA200);
    run(&mut chip, 0x6F05);
    assert_eq!(run(&mut chip, 0xD000), Action::Redraw);
    assert_eq!(lit(chip.framebuffer()), vec![]);
    assert_eq!(chip.register(0xF), 0);
}

#[test]
fn a_sprite_that_reaches_past_memory_fails() {
    let mut chip = Chip::new(&[]).unwrap();
    run(&mut chip, 0x6F05);
    run(&mut chip, 0xAFFF);
    assert_eq!(run(&mut chip, 0xD001), Action::Redraw);
    assert_eq!(chip.register(0xF), 0);
    run(&mut chip, 0x6F05);
    assert_eq!(
        chip.execute(0xD002, &Keypad::new(), 0),
        Err(ChipError::MemoryOutOfBounds { opcode: 0xD002, index: 0xFFF })
    );
    assert_eq!(chip.register(0xF), 5);
    assert_eq!(lit(chip.framebuffer()), vec![]);
}

#[test]
fn clear_screen_asks_for_a_redraw() {
    let mut chip = Chip::new(&[]).unwrap();
    run(&mut chip, 0xA050);
    run(&mut chip, 0xD005);
    assert!(!lit(chip.framebuffer()).is_empty());
    assert_eq!(run(&mut chip, 0x00E0), Action::Redraw);
    assert_eq!(lit(chip.framebuffer()), vec![]);
    assert_eq!(chip.pc(), 0x200);
}
