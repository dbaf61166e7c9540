use chip8::opcode::{decode, Instruction};

#[test]
fn decodes_clear_and_return() {
    assert_eq!(decode(0x00E0), Instruction::ClearScreen);
    assert_eq!(decode(0x00EE), Instruction::Return);
}

#[test]
fn decodes_flow_control() {
    assert_eq!(decode(0x1ABC), Instruction::Jump { addr: 0xABC });
    assert_eq!(decode(0x2FFF), Instruction::Call { addr: 0xFFF });
    assert_eq!(decode(0xB123), Instruction::JumpOffset { addr: 0x123 });
    assert_eq!(decode(0x3A7F), Instruction::SkipEqImm { x: 0xA, nn: 0x7F });
    assert_eq!(decode(0x4B01), Instruction::SkipNeImm { x: 0xB, nn: 0x01 });
    assert_eq!(decode(0x5120), Instruction::SkipEqReg { x: 1, y: 2 });
    assert_eq!(decode(0x9340), Instruction::SkipNeReg { x: 3, y: 4 });
}

#[test]
fn register_skips_ignore_the_last_nibble() {
    assert_eq!(decode(0x512F), Instruction::SkipEqReg { x: 1, y: 2 });
    assert_eq!(decode(0x9347), Instruction::SkipNeReg { x: 3, y: 4 });
}

#[test]
fn decodes_immediates() {
    assert_eq!(decode(0x6C42), Instruction::LoadImm { x: 0xC, nn: 0x42 });
    assert_eq!(decode(0x7DFF), Instruction::AddImm { x: 0xD, nn: 0xFF });
    assert_eq!(decode(0xA050), Instruction::LoadIndex { addr: 0x050 });
    assert_eq!(decode(0xC30F), Instruction::Random { x: 3, nn: 0x0F });
    assert_eq!(decode(0xD125), Instruction::Draw { x: 1, y: 2, n: 5 });
}

#[test]
fn decodes_register_operations() {
    assert_eq!(decode(0x8AB0), Instruction::Move { x: 0xA, y: 0xB });
    assert_eq!(decode(0x8AB1), Instruction::Or { x: 0xA, y: 0xB });
    assert_eq!(decode(0x8AB2), Instruction::And { x: 0xA, y: 0xB });
    assert_eq!(decode(0x8AB3), Instruction::Xor { x: 0xA, y: 0xB });
    assert_eq!(decode(0x8AB4), Instruction::Add { x: 0xA, y: 0xB });
    assert_eq!(decode(0x8AB5), Instruction::Sub { x: 0xA, y: 0xB });
    assert_eq!(decode(0x8AB6), Instruction::ShiftRight { x: 0xA, y: 0xB });
    assert_eq!(decode(0x8AB7), Instruction::SubReverse { x: 0xA, y: 0xB });
    assert_eq!(decode(0x8ABE), Instruction::ShiftLeft { x: 0xA, y: 0xB });
}

#[test]
fn decodes_key_and_misc_operations() {
    assert_eq!(decode(0xE59E), Instruction::SkipKey { x: 5 });
    assert_eq!(decode(0xE5A1), Instruction::SkipNotKey { x: 5 });
    assert_eq!(decode(0xF207), Instruction::ReadDelay { x: 2 });
    assert_eq!(decode(0xF20A), Instruction::WaitKey { x: 2 });
    assert_eq!(decode(0xF215), Instruction::SetDelay { x: 2 });
    assert_eq!(decode(0xF218), Instruction::SetSound { x: 2 });
    assert_eq!(decode(0xF21E), Instruction::AddIndex { x: 2 });
    assert_eq!(decode(0xF229), Instruction::FontAddr { x: 2 });
    assert_eq!(decode(0xF233), Instruction::StoreBcd { x: 2 });
    assert_eq!(decode(0xF255), Instruction::Dump { x: 2 });
    assert_eq!(decode(0xF265), Instruction::Load { x: 2 });
}

#[test]
fn undefined_opcodes_decode_to_nop() {
    for opcode in [
        0x0000u16, 0x0123, 0x00E1, 0x00EF, 0x8AB8, 0x8AB9, 0x8ABA, 0x8ABD, 0x8ABF, 0xE000, 0xE59F,
        0xE5A0, 0xE5FF, 0xF000, 0xF2FF, 0xF234, 0xF266,
    ] {
        assert_eq!(decode(opcode), Instruction::Nop, "opcode {:04X}", opcode);
    }
}

#[test]
fn every_opcode_decodes_with_operands_of_its_own_nibbles() {
    for opcode in 0..=0xFFFFu16 {
        let x = ((opcode >> 8) & 0xF) as u8;
        let y = ((opcode >> 4) & 0xF) as u8;
        let n = (opcode & 0xF) as u8;
        let nn = (opcode & 0xFF) as u8;
        let addr = opcode & 0xFFF;
        match decode(opcode) {
            Instruction::Jump { addr: a }
            | Instruction::Call { addr: a }
            | Instruction::LoadIndex { addr: a }
            | Instruction::JumpOffset { addr: a } => assert_eq!(a, addr),
            Instruction::SkipEqImm { x: a, nn: b }
            | Instruction::SkipNeImm { x: a, nn: b }
            | Instruction::LoadImm { x: a, nn: b }
            | Instruction::AddImm { x: a, nn: b }
            | Instruction::Random { x: a, nn: b } => assert_eq!((a, b), (x, nn)),
            Instruction::Draw { x: a, y: b, n: c } => assert_eq!((a, b, c), (x, y, n)),
            Instruction::SkipEqReg { x: a, y: b }
            | Instruction::SkipNeReg { x: a, y: b }
            | Instruction::Move { x: a, y: b }
            | Instruction::Or { x: a, y: b }
            | Instruction::And { x: a, y: b }
            | Instruction::Xor { x: a, y: b }
            | Instruction::Add { x: a, y: b }
            | Instruction::Sub { x: a, y: b }
            | Instruction::ShiftRight { x: a, y: b }
            | Instruction::SubReverse { x: a, y: b }
            | Instruction::ShiftLeft { x: a, y: b } => assert_eq!((a, b), (x, y)),
            Instruction::SkipKey { x: a }
            | Instruction::SkipNotKey { x: a }
            | Instruction::ReadDelay { x: a }
            | Instruction::WaitKey { x: a }
            | Instruction::SetDelay { x: a }
            | Instruction::SetSound { x: a }
            | Instruction::AddIndex { x: a }
            | Instruction::FontAddr { x: a }
            | Instruction::StoreBcd { x: a }
            | Instruction::Dump { x: a }
            | Instruction::Load { x: a } => assert_eq!(a, x),
            Instruction::ClearScreen | Instruction::Return | Instruction::Nop => {}
        }
    }
}
