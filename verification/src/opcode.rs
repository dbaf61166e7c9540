//! Decoding of 16-bit opcodes into instructions.

use vstd::prelude::*;

verus! {

/// One operation of the instruction set, with its operands.
///
/// `x` and `y` name registers, `nn` is an 8-bit immediate, `addr` a 12-bit
/// address and `n` a 4-bit count.
#[derive(Clone, Copy, Debug, PartialEq, Eq, Structural)]
pub enum Instruction {
    /// 00E0: clear the display.
    ClearScreen,
    /// 00EE: return from a subroutine.
    Return,
    /// 1NNN: jump to `addr`.
    Jump { addr: u16 },
    /// 2NNN: call the subroutine at `addr`.
    Call { addr: u16 },
    /// 3XNN: skip the next instruction if `Vx == nn`.
    SkipEqImm { x: u8, nn: u8 },
    /// 4XNN: skip the next instruction if `Vx != nn`.
    SkipNeImm { x: u8, nn: u8 },
    /// 5XY_: skip the next instruction if `Vx == Vy`.
    SkipEqReg { x: u8, y: u8 },
    /// 6XNN: `Vx = nn`.
    LoadImm { x: u8, nn: u8 },
    /// 7XNN: `Vx += nn`, wrapping, flag untouched.
    AddImm { x: u8, nn: u8 },
    /// 8XY0: `Vx = Vy`.
    Move { x: u8, y: u8 },
    /// 8XY1: `Vx |= Vy`.
    Or { x: u8, y: u8 },
    /// 8XY2: `Vx &= Vy`.
    And { x: u8, y: u8 },
    /// 8XY3: `Vx ^= Vy`.
    Xor { x: u8, y: u8 },
    /// 8XY4: `Vx += Vy`, `VF` = carry.
    Add { x: u8, y: u8 },
    /// 8XY5: `Vx -= Vy`, `VF` = no borrow.
    Sub { x: u8, y: u8 },
    /// 8XY6: `Vx >>= 1`, `VF` = the bit shifted out.
    ShiftRight { x: u8, y: u8 },
    /// 8XY7: `Vx = Vy - Vx`, `VF` = no borrow.
    SubReverse { x: u8, y: u8 },
    /// 8XYE: `Vx <<= 1`, `VF` = the bit shifted out.
    ShiftLeft { x: u8, y: u8 },
    /// 9XY_: skip the next instruction if `Vx != Vy`.
    SkipNeReg { x: u8, y: u8 },
    /// ANNN: `I = addr`.
    LoadIndex { addr: u16 },
    /// BNNN: jump to `addr + V0`.
    JumpOffset { addr: u16 },
    /// CXNN: `Vx = random & nn`.
    Random { x: u8, nn: u8 },
    /// DXYN: draw the `n`-row sprite at `I` at (`Vx`, `Vy`), `VF` = collision.
    Draw { x: u8, y: u8, n: u8 },
    /// EX9E: skip the next instruction if the key in `Vx` is held.
    SkipKey { x: u8 },
    /// EXA1: skip the next instruction if the key in `Vx` is not held.
    SkipNotKey { x: u8 },
    /// FX07: `Vx = delay timer`.
    ReadDelay { x: u8 },
    /// FX0A: wait for a key and store it in `Vx`.
    WaitKey { x: u8 },
    /// FX15: `delay timer = Vx`.
    SetDelay { x: u8 },
    /// FX18: `sound timer = Vx`.
    SetSound { x: u8 },
    /// FX1E: `I += Vx`, wrapping at 16 bits.
    AddIndex { x: u8 },
    /// FX29: `I` = address of the glyph for `Vx`.
    FontAddr { x: u8 },
    /// FX33: store the decimal digits of `Vx` at `I`, `I + 1`, `I + 2`.
    StoreBcd { x: u8 },
    /// FX55: store `V0..=Vx` at `I`.
    Dump { x: u8 },
    /// FX65: load `V0..=Vx` from `I`.
    Load { x: u8 },
    /// Any other opcode: nothing happens.
    Nop,
}

/// The first nibble of an opcode: the instruction family.
pub open spec fn family_of(opcode: u16) -> u8 {
    (opcode / 0x1000) as u8
}

/// The second nibble of an opcode: the register `x`.
pub open spec fn x_of(opcode: u16) -> u8 {
    ((opcode / 0x100) % 0x10) as u8
}

/// The third nibble of an opcode: the register `y`.
pub open spec fn y_of(opcode: u16) -> u8 {
    ((opcode / 0x10) % 0x10) as u8
}

/// The last nibble of an opcode.
pub open spec fn n_of(opcode: u16) -> u8 {
    (opcode % 0x10) as u8
}

/// The low byte of an opcode.
pub open spec fn nn_of(opcode: u16) -> u8 {
    (opcode % 0x100) as u8
}

/// The low twelve bits of an opcode.
pub open spec fn addr_of(opcode: u16) -> u16 {
    opcode % 0x1000
}

/// The register-to-register operation that the last nibble of an 8XY_
/// opcode selects.
pub open spec fn decode_alu(x: u8, y: u8, n: u8) -> Instruction {
    if n == 0x0 {
        Instruction::Move { x, y }
    } else if n == 0x1 {
        Instruction::Or { x, y }
    } else if n == 0x2 {
        Instruction::And { x, y }
    } else if n == 0x3 {
        Instruction::Xor { x, y }
    } else if n == 0x4 {
        Instruction::Add { x, y }
    } else if n == 0x5 {
        Instruction::Sub { x, y }
    } else if n == 0x6 {
        Instruction::ShiftRight { x, y }
    } else if n == 0x7 {
        Instruction::SubReverse { x, y }
    } else if n == 0xE {
        Instruction::ShiftLeft { x, y }
    } else {
        Instruction::Nop
    }
}

/// The operation that the low byte of an FX__ opcode selects.
pub open spec fn decode_misc(x: u8, nn: u8) -> Instruction {
    if nn == 0x07 {
        Instruction::ReadDelay { x }
    } else if nn == 0x0A {
        Instruction::WaitKey { x }
    } else if nn == 0x15 {
        Instruction::SetDelay { x }
    } else if nn == 0x18 {
        Instruction::SetSound { x }
    } else if nn == 0x1E {
        Instruction::AddIndex { x }
    } else if nn == 0x29 {
        Instruction::FontAddr { x }
    } else if nn == 0x33 {
        Instruction::StoreBcd { x }
    } else if nn == 0x55 {
        Instruction::Dump { x }
    } else if nn == 0x65 {
        Instruction::Load { x }
    } else {
        Instruction::Nop
    }
}

/// The instruction that an opcode stands for. Every opcode stands for one:
/// those that the instruction set leaves undefined stand for `Nop`.
pub open spec fn decode_spec(opcode: u16) -> Instruction {
    let family = family_of(opcode);
    let x = x_of(opcode);
    let y = y_of(opcode);
    let n = n_of(opcode);
    let nn = nn_of(opcode);
    let addr = addr_of(opcode);
    if family == 0x0 {
        if opcode == 0x00E0 {
            Instruction::ClearScreen
        } else if opcode == 0x00EE {
            Instruction::Return
        } else {
            Instruction::Nop
        }
    } else if family == 0x1 {
        Instruction::Jump { addr }
    } else if family == 0x2 {
        Instruction::Call { addr }
    } else if family == 0x3 {
        Instruction::SkipEqImm { x, nn }
    } else if family == 0x4 {
        Instruction::SkipNeImm { x, nn }
    } else if family == 0x5 {
        Instruction::SkipEqReg { x, y }
    } else if family == 0x6 {
        Instruction::LoadImm { x, nn }
    } else if family == 0x7 {
        Instruction::AddImm { x, nn }
    } else if family == 0x8 {
        decode_alu(x, y, n)
    } else if family == 0x9 {
        Instruction::SkipNeReg { x, y }
    } else if family == 0xA {
        Instruction::LoadIndex { addr }
    } else if family == 0xB {
        Instruction::JumpOffset { addr }
    } else if family == 0xC {
        Instruction::Random { x, nn }
    } else if family == 0xD {
        Instruction::Draw { x, y, n }
    } else if family == 0xE {
        if nn == 0x9E {
            Instruction::SkipKey { x }
        } else if nn == 0xA1 {
            Instruction::SkipNotKey { x }
        } else {
            Instruction::Nop
        }
    } else {
        decode_misc(x, nn)
    }
}

impl Instruction {
    /// Every operand lies in the range that its place in an opcode allows.
    pub open spec fn wf(self) -> bool {
        match self {
            Instruction::ClearScreen | Instruction::Return | Instruction::Nop => true,
            Instruction::Jump { addr }
            | Instruction::Call { addr }
            | Instruction::LoadIndex { addr }
            | Instruction::JumpOffset { addr } => addr < 0x1000,
            Instruction::SkipEqImm { x, .. }
            | Instruction::SkipNeImm { x, .. }
            | Instruction::LoadImm { x, .. }
            | Instruction::AddImm { x, .. }
            | Instruction::Random { x, .. }
            | Instruction::SkipKey { x }
            | Instruction::SkipNotKey { x }
            | Instruction::ReadDelay { x }
            | Instruction::WaitKey { x }
            | Instruction::SetDelay { x }
            | Instruction::SetSound { x }
            | Instruction::AddIndex { x }
            | Instruction::FontAddr { x }
            | Instruction::StoreBcd { x }
            | Instruction::Dump { x }
            | Instruction::Load { x } => x < 16,
            Instruction::SkipEqReg { x, y }
            | Instruction::Move { x, y }
            | Instruction::Or { x, y }
            | Instruction::And { x, y }
            | Instruction::Xor { x, y }
            | Instruction::Add { x, y }
            | Instruction::Sub { x, y }
            | Instruction::ShiftRight { x, y }
            | Instruction::SubReverse { x, y }
            | Instruction::ShiftLeft { x, y }
            | Instruction::SkipNeReg { x, y } => x < 16 && y < 16,
            Instruction::Draw { x, y, n } => x < 16 && y < 16 && n < 16,
        }
    }
}

/// Decodes an opcode. Undefined opcodes decode to `Nop`.
pub fn decode(opcode: u16) -> (ins: Instruction)
    ensures
        ins == decode_spec(opcode),
        ins.wf(),
{
    let family: u8 = (opcode / 0x1000) as u8;
    let x: u8 = ((opcode / 0x100) % 0x10) as u8;
    let y: u8 = ((opcode / 0x10) % 0x10) as u8;
    let n: u8 = (opcode % 0x10) as u8;
    let nn: u8 = (opcode % 0x100) as u8;
    let addr: u16 = opcode % 0x1000;
    match family {
        0x0 => match opcode {
            0x00E0 => Instruction::ClearScreen,
            0x00EE => Instruction::Return,
            _ => Instruction::Nop,
        },
        0x1 => Instruction::Jump { addr },
        0x2 => Instruction::Call { addr },
        0x3 => Instruction::SkipEqImm { x, nn },
        0x4 => Instruction::SkipNeImm { x, nn },
        0x5 => Instruction::SkipEqReg { x, y },
        0x6 => Instruction::LoadImm { x, nn },
        0x7 => Instruction::AddImm { x, nn },
        0x8 => match n {
            0x0 => Instruction::Move { x, y },
            0x1 => Instruction::Or { x, y },
            0x2 => Instruction::And { x, y },
            0x3 => Instruction::Xor { x, y },
            0x4 => Instruction::Add { x, y },
            0x5 => Instruction::Sub { x, y },
            0x6 => Instruction::ShiftRight { x, y },
            0x7 => Instruction::SubReverse { x, y },
            0xE => Instruction::ShiftLeft { x, y },
            _ => Instruction::Nop,
        },
        0x9 => Instruction::SkipNeReg { x, y },
        0xA => Instruction::LoadIndex { addr },
        0xB => Instruction::JumpOffset { addr },
        0xC => Instruction::Random { x, nn },
        0xD => Instruction::Draw { x, y, n },
        0xE => match nn {
            0x9E => Instruction::SkipKey { x },
            0xA1 => Instruction::SkipNotKey { x },
            _ => Instruction::Nop,
        },
        _ => match nn {
            0x07 => Instruction::ReadDelay { x },
            0x0A => Instruction::WaitKey { x },
            0x15 => Instruction::SetDelay { x },
            0x18 => Instruction::SetSound { x },
            0x1E => Instruction::AddIndex { x },
            0x29 => Instruction::FontAddr { x },
            0x33 => Instruction::StoreBcd { x },
            0x55 => Instruction::Dump { x },
            0x65 => Instruction::Load { x },
            _ => Instruction::Nop,
        },
    }
}

/// The opcode with the four nibbles `family`, `x`, `y` and `n`, the highest
/// first.
pub open spec fn assemble(family: u8, x: u8, y: u8, n: u8) -> u16 {
    (0x1000 * family + 0x100 * x + 0x10 * y + n) as u16
}

/// The opcode with the nibbles `family` and `x` and the low byte `nn`.
pub open spec fn with_byte(family: u8, x: u8, nn: u8) -> u16 {
    (0x1000 * family + 0x100 * x + nn) as u16
}

/// The opcode with the nibble `family` and the twelve bits `addr`.
pub open spec fn with_addr(family: u8, addr: u16) -> u16 {
    (0x1000 * family + addr) as u16
}

impl Instruction {
    /// The opcode that stands for this instruction. For the skips on two
    /// registers, which any last nibble selects, it is the one that ends in
    /// 0, and for `Nop` it is 0000.
    pub open spec fn opcode(self) -> u16 {
        match self {
            Instruction::ClearScreen => 0x00E0,
            Instruction::Return => 0x00EE,
            Instruction::Jump { addr } => with_addr(0x1, addr),
            Instruction::Call { addr } => with_addr(0x2, addr),
            Instruction::SkipEqImm { x, nn } => with_byte(0x3, x, nn),
            Instruction::SkipNeImm { x, nn } => with_byte(0x4, x, nn),
            Instruction::SkipEqReg { x, y } => assemble(0x5, x, y, 0x0),
            Instruction::LoadImm { x, nn } => with_byte(0x6, x, nn),
            Instruction::AddImm { x, nn } => with_byte(0x7, x, nn),
            Instruction::Move { x, y } => assemble(0x8, x, y, 0x0),
            Instruction::Or { x, y } => assemble(0x8, x, y, 0x1),
            Instruction::And { x, y } => assemble(0x8, x, y, 0x2),
            Instruction::Xor { x, y } => assemble(0x8, x, y, 0x3),
            Instruction::Add { x, y } => assemble(0x8, x, y, 0x4),
            Instruction::Sub { x, y } => assemble(0x8, x, y, 0x5),
            Instruction::ShiftRight { x, y } => assemble(0x8, x, y, 0x6),
            Instruction::SubReverse { x, y } => assemble(0x8, x, y, 0x7),
            Instruction::ShiftLeft { x, y } => assemble(0x8, x, y, 0xE),
            Instruction::SkipNeReg { x, y } => assemble(0x9, x, y, 0x0),
            Instruction::LoadIndex { addr } => with_addr(0xA, addr),
            Instruction::JumpOffset { addr } => with_addr(0xB, addr),
            Instruction::Random { x, nn } => with_byte(0xC, x, nn),
            Instruction::Draw { x, y, n } => assemble(0xD, x, y, n),
            Instruction::SkipKey { x } => with_byte(0xE, x, 0x9E),
            Instruction::SkipNotKey { x } => with_byte(0xE, x, 0xA1),
            Instruction::ReadDelay { x } => with_byte(0xF, x, 0x07),
            Instruction::WaitKey { x } => with_byte(0xF, x, 0x0A),
            Instruction::SetDelay { x } => with_byte(0xF, x, 0x15),
            Instruction::SetSound { x } => with_byte(0xF, x, 0x18),
            Instruction::AddIndex { x } => with_byte(0xF, x, 0x1E),
            Instruction::FontAddr { x } => with_byte(0xF, x, 0x29),
            Instruction::StoreBcd { x } => with_byte(0xF, x, 0x33),
            Instruction::Dump { x } => with_byte(0xF, x, 0x55),
            Instruction::Load { x } => with_byte(0xF, x, 0x65),
            Instruction::Nop => 0x0000,
        }
    }
}

/// Taking an opcode apart gives back the nibbles it was put together from.
pub proof fn lemma_nibbles(family: u8, x: u8, y: u8, n: u8)
    requires
        family < 16,
        x < 16,
        y < 16,
        n < 16,
    ensures
        family_of(assemble(family, x, y, n)) == family,
        x_of(assemble(family, x, y, n)) == x,
        y_of(assemble(family, x, y, n)) == y,
        n_of(assemble(family, x, y, n)) == n,
        nn_of(assemble(family, x, y, n)) == 0x10 * y + n,
        addr_of(assemble(family, x, y, n)) == 0x100 * x + 0x10 * y + n,
{
    let op: u16 = assemble(family, x, y, n);
    assert(op == 0x1000 * family + 0x100 * x + 0x10 * y + n);
    assert(op / 0x1000 == family as u16 && (op / 0x100) % 0x10 == x as u16 && (op / 0x10) % 0x10
        == y as u16 && op % 0x10 == n as u16 && op % 0x100 == 0x10 * y + n && op % 0x1000 == 0x100
        * x + 0x10 * y + n) by (bit_vector)
        requires
            family < 16,
            x < 16,
            y < 16,
            n < 16,
            op == 0x1000 * family + 0x100 * x + 0x10 * y + n,
    ;
}

/// Taking an opcode apart gives back the family, the register and the low
/// byte it was put together from.
pub proof fn lemma_byte_fields(family: u8, x: u8, nn: u8)
    requires
        family < 16,
        x < 16,
    ensures
        family_of(with_byte(family, x, nn)) == family,
        x_of(with_byte(family, x, nn)) == x,
        nn_of(with_byte(family, x, nn)) == nn,
{
    let op: u16 = with_byte(family, x, nn);
    assert(op == 0x1000 * family + 0x100 * x + nn);
    assert(op / 0x1000 == family as u16 && (op / 0x100) % 0x10 == x as u16 && op % 0x100
        == nn as u16) by (bit_vector)
        requires
            family < 16,
            x < 16,
            op == 0x1000 * family + 0x100 * x + nn,
    ;
}

/// Taking an opcode apart gives back the family and the address it was put
/// together from.
pub proof fn lemma_addr_fields(family: u8, addr: u16)
    requires
        family < 16,
        addr < 0x1000,
    ensures
        family_of(with_addr(family, addr)) == family,
        addr_of(with_addr(family, addr)) == addr,
{
    let op: u16 = with_addr(family, addr);
    assert(op == 0x1000 * family + addr);
    assert(op / 0x1000 == family as u16 && op % 0x1000 == addr) by (bit_vector)
        requires
            family < 16,
            addr < 0x1000,
            op == 0x1000 * family + addr,
    ;
}

/// Every opcode is put together from its own four nibbles.
pub proof fn lemma_assemble_nibbles(opcode: u16)
    ensures
        assemble(family_of(opcode), x_of(opcode), y_of(opcode), n_of(opcode)) == opcode,
        family_of(opcode) < 16,
        x_of(opcode) < 16,
        y_of(opcode) < 16,
        n_of(opcode) < 16,
{
    assert(0x1000 * (opcode / 0x1000) + 0x100 * ((opcode / 0x100) % 0x10) + 0x10 * ((opcode / 0x10)
        % 0x10) + opcode % 0x10 == opcode && opcode / 0x1000 < 16) by (bit_vector);
}

/// Decoding gives operands in range.
pub proof fn lemma_decode_wf(opcode: u16)
    ensures
        decode_spec(opcode).wf(),
{
}

/// Decoding undoes encoding: the opcode of an instruction with operands in
/// range decodes to that instruction.
pub proof fn lemma_decode_inverts_opcode(ins: Instruction)
    requires
        ins.wf(),
    ensures
        decode_spec(ins.opcode()) == ins,
{
    match ins {
        Instruction::ClearScreen | Instruction::Return | Instruction::Nop => {},
        Instruction::Jump { addr } => lemma_addr_fields(0x1, addr),
        Instruction::Call { addr } => lemma_addr_fields(0x2, addr),
        Instruction::LoadIndex { addr } => lemma_addr_fields(0xA, addr),
        Instruction::JumpOffset { addr } => lemma_addr_fields(0xB, addr),
        Instruction::SkipEqImm { x, nn } => lemma_byte_fields(0x3, x, nn),
        Instruction::SkipNeImm { x, nn } => lemma_byte_fields(0x4, x, nn),
        Instruction::LoadImm { x, nn } => lemma_byte_fields(0x6, x, nn),
        Instruction::AddImm { x, nn } => lemma_byte_fields(0x7, x, nn),
        Instruction::Random { x, nn } => lemma_byte_fields(0xC, x, nn),
        Instruction::SkipEqReg { x, y } => lemma_nibbles(0x5, x, y, 0x0),
        Instruction::SkipNeReg { x, y } => lemma_nibbles(0x9, x, y, 0x0),
        Instruction::Move { x, y } => lemma_nibbles(0x8, x, y, 0x0),
        Instruction::Or { x, y } => lemma_nibbles(0x8, x, y, 0x1),
        Instruction::And { x, y } => lemma_nibbles(0x8, x, y, 0x2),
        Instruction::Xor { x, y } => lemma_nibbles(0x8, x, y, 0x3),
        Instruction::Add { x, y } => lemma_nibbles(0x8, x, y, 0x4),
        Instruction::Sub { x, y } => lemma_nibbles(0x8, x, y, 0x5),
        Instruction::ShiftRight { x, y } => lemma_nibbles(0x8, x, y, 0x6),
        Instruction::SubReverse { x, y } => lemma_nibbles(0x8, x, y, 0x7),
        Instruction::ShiftLeft { x, y } => lemma_nibbles(0x8, x, y, 0xE),
        Instruction::Draw { x, y, n } => lemma_nibbles(0xD, x, y, n),
        Instruction::SkipKey { x } => lemma_byte_fields(0xE, x, 0x9E),
        Instruction::SkipNotKey { x } => lemma_byte_fields(0xE, x, 0xA1),
        Instruction::ReadDelay { x } => lemma_byte_fields(0xF, x, 0x07),
        Instruction::WaitKey { x } => lemma_byte_fields(0xF, x, 0x0A),
        Instruction::SetDelay { x } => lemma_byte_fields(0xF, x, 0x15),
        Instruction::SetSound { x } => lemma_byte_fields(0xF, x, 0x18),
        Instruction::AddIndex { x } => lemma_byte_fields(0xF, x, 0x1E),
        Instruction::FontAddr { x } => lemma_byte_fields(0xF, x, 0x29),
        Instruction::StoreBcd { x } => lemma_byte_fields(0xF, x, 0x33),
        Instruction::Dump { x } => lemma_byte_fields(0xF, x, 0x55),
        Instruction::Load { x } => lemma_byte_fields(0xF, x, 0x65),
    }
}

} // verus!
