use chip8::chip::Chip;
use chip8::keypad::Keypad;
use chip8::machine::Action;

fn step(chip: &mut Chip) -> (u16, Action) {
    let opcode = chip.fetch().unwrap();
    let action = chip.execute(opcode, &Keypad::new(), 0x5A).unwrap();
    (opcode, action)
}

fn lit_count(chip: &Chip) -> usize {
    let mut n = 0;
    for y in 0..64 {
        for x in 0..128 {
            if chip.pixel(x, y) {
                n += 1;
            }
        }
    }
    n
}

#[test]
fn clear_then_self_jump_clears_a_dirty_display_and_loops() {
    let mut chip = Chip::new(&[0x00, 0xE0, 0x12, 0x00]).unwrap();
    let pad = Keypad::new();
    chip.execute(0x6005, &pad, 0).unwrap();
    chip.execute(0x6109, &pad, 0).unwrap();
    chip.execute(0xA050, &pad, 0).unwrap();
    chip.execute(0xD015, &pad, 0).unwrap();
    chip.execute(0x603C, &pad, 0).unwrap();
    chip.execute(0xD01F, &pad, 0).unwrap();
    chip.execute(0x6000, &pad, 0).unwrap();
    chip.execute(0x6100, &pad, 0).unwrap();
    chip.execute(0xA000, &pad, 0).unwrap();
    assert!(lit_count(&chip) > 0);
    assert_eq!(chip.pc(), 0x200);

    assert_eq!(step(&mut chip), (0x00E0, Action::Redraw));
    assert_eq!(lit_count(&chip), 0);
    assert_eq!(chip.pc(), 0x202);
    for _ in 0..100 {
        assert_eq!(step(&mut chip), (0x1200, Action::Continue));
        assert_eq!(chip.pc(), 0x200);
        assert_eq!(step(&mut chip), (0x00E0, Action::Redraw));
        assert_eq!(chip.pc(), 0x202);
        assert_eq!(lit_count(&chip), 0);
        assert_eq!(chip.index(), 0);
        assert_eq!(chip.stack_depth(), 0);
        for x in 0..16 {
            assert_eq!(chip.register(x), 0);
        }
        assert_eq!(chip.memory(0x200), 0x00);
        assert_eq!(chip.memory(0x201), 0xE0);
        assert_eq!(chip.memory(0x202), 0x12);
        assert_eq!(chip.memory(0x203), 0x00);
    }
}

#[test]
fn a_program_of_one_self_jump_never_changes_the_machine() {
    let mut chip = Chip::new(&[0x12, 0x00]).unwrap();
    for _ in 0..50 {
        assert_eq!(step(&mut chip), (0x1200, Action::Continue));
        assert_eq!(chip.pc(), 0x200);
        assert_eq!(lit_count(&chip), 0);
    }
}

#[test]
fn drawing_the_glyph_for_zero_at_the_top_left() {
    let mut chip = Chip::new(&[0xA0, 0x50, 0xD0, 0x05]).unwrap();
    assert_eq!(step(&mut chip), (0xA050, Action::Continue));
    assert_eq!(chip.index(), 0x050);
    assert_eq!(step(&mut chip), (0xD005, Action::Redraw));
    let glyph = ["####....", "#..#....", "#..#....", "#..#....", "####...."];
    for y in 0..64 {
        for x in 0..128 {
            let expected = y < 5 && x < 8 && glyph[y].as_bytes()[x] == b'#';
            assert_eq!(chip.pixel(x, y), expected, "pixel ({}, {})", x, y);
        }
    }
    assert_eq!(chip.register(0xF), 0);
    assert_eq!(chip.register(0), 0);
    assert_eq!(chip.register(1), 0);
    assert_eq!(chip.pc(), 0x204);
}

#[test]
fn every_glyph_draws_its_own_pattern() {
    let glyphs: [[u8; 5]; 16] = [
        [0xF0, 0x90, 0x90, 0x90, 0xF0],
        [0x20, 0x60, 0x20, 0x20, 0x70],
        [0xF0, 0x10, 0xF0, 0x80, 0xF0],
        [0xF0, 0x10, 0xF0, 0x10, 0xF0],
        [0x90, 0x90, 0xF0, 0x10, 0x10],
        [0xF0, 0x80, 0xF0, 0x10, 0xF0],
        [0xF0, 0x80, 0xF0, 0x90, 0xF0],
        [0xF0, 0x10, 0x20, 0x40, 0x40],
        [0xF0, 0x90, 0xF0, 0x90, 0xF0],
        [0xF0, 0x90, 0xF0, 0x10, 0xF0],
        [0xF0, 0x90, 0xF0, 0x90, 0x90],
        [0xE0, 0x90, 0xE0, 0x90, 0xE0],
        [0xF0, 0x80, 0x80, 0x80, 0xF0],
        [0xE0, 0x90, 0x90, 0x90, 0xE0],
        [0xF0, 0x80, 0xF0, 0x80, 0xF0],
        [0xF0, 0x80, 0xF0, 0x80, 0x80],
    ];
    let pad = Keypad::new();
    for digit in 0..16u8 {
        let mut chip = Chip::new(&[]).unwrap();
        chip.execute(0x6200 | digit as u16, &pad, 0).unwrap();
        chip.execute(0xF229, &pad, 0).unwrap();
        chip.execute(0x6010, &pad, 0).unwrap();
        chip.execute(0x6108, &pad, 0).unwrap();
        assert_eq!(chip.execute(0xD015, &pad, 0), Ok(Action::Redraw));
        for row in 0..5usize {
            for col in 0..8usize {
                let expected = (glyphs[digit as usize][row] >> (7 - col)) & 1 == 1;
                assert_eq!(chip.pixel(16 + col, 8 + row), expected);
            }
        }
    }
}

#[test]
fn a_counting_program_runs_to_its_end() {
    // V0 = 0; loop: V0 += 1; if V0 != 10 goto loop; I = 0x300; store digits; halt.
    let rom = [
        0x60, 0x00, // 200: V0 = 0
        0x70, 0x01, // 202: V0 += 1
        0x30, 0x0A, // 204: skip if V0 == 10
        0x12, 0x02, // 206: goto 202
        0xA3, 0x00, // 208: I = 0x300
        0xF0, 0x33, // 20A: digits of V0
        0x12, 0x0C, // 20C: goto 20C
    ];
    let mut chip = Chip::new(&rom).unwrap();
    let mut steps = 0;
    while chip.pc() != 0x20C {
        step(&mut chip);
        steps += 1;
        assert!(steps < 1000);
    }
    assert_eq!(steps, 1 + 10 * 3 - 1 + 2);
    assert_eq!(chip.register(0), 10);
    assert_eq!((chip.memory(0x300), chip.memory(0x301), chip.memory(0x302)), (0, 1, 0));
}

#[test]
fn a_subroutine_program_returns_to_its_caller() {
    let rom = [
        0x22, 0x06, // 200: call 206
        0x61, 0x02, // 202: V1 = 2
        0x12, 0x04, // 204: goto 204
        0x60, 0x01, // 206: V0 = 1
        0x00, 0xEE, // 208: return
    ];
    let mut chip = Chip::new(&rom).unwrap();
    assert_eq!(step(&mut chip).0, 0x2206);
    assert_eq!((chip.pc(), chip.stack_depth()), (0x206, 1));
    assert_eq!(step(&mut chip).0, 0x6001);
    assert_eq!(step(&mut chip).0, 0x00EE);
    assert_eq!((chip.pc(), chip.stack_depth()), (0x202, 0));
    assert_eq!(step(&mut chip).0, 0x6102);
    assert_eq!((chip.register(0), chip.register(1)), (1, 2));
}
