//! The machine as a mathematical value, and what each instruction does to it.

use crate::alu::{
    bcd, carry, high_bit, low_bit, no_borrow, shifted_left, shifted_right, wrapped_diff,
    wrapped_index, wrapped_sum,
};
use crate::display::{
    blank, blit, collides, has_set_bit, is_grid, lemma_draw_twice_restores, lemma_set_bit_touches,
    lights, MAX_SPRITE_ROWS,
};
use crate::error::ChipError;
use crate::keypad::{first_held, key_held};
use crate::opcode::{decode_spec, lemma_decode_inverts_opcode, lemma_decode_wf, Instruction};
use crate::stack::STACK_LIMIT;
use vstd::prelude::*;

verus! {

/// Bytes of memory: addresses 0x000 to 0xFFF.
pub const MEMORY_SIZE: usize = 4096;

/// Where a program is loaded and where execution starts.
pub const PROGRAM_START: u16 = 0x200;

/// The largest program that fits between `PROGRAM_START` and the end of
/// memory.
pub const MAX_ROM_SIZE: usize = 0xE00;

/// Where the built-in font starts.
pub const FONT_START: u16 = 0x050;

/// Bytes in one glyph of the font.
pub const GLYPH_SIZE: u16 = 5;

/// Bytes in the whole font: sixteen glyphs.
pub const FONT_SIZE: usize = 80;

/// How many general-purpose registers there are.
pub const REGISTER_COUNT: usize = 16;

/// The register that receives carries, borrows and collisions.
pub const FLAG: u8 = 0xF;

/// The built-in font: the glyphs for 0 to F, five rows each, in the high
/// nibble of each byte.
pub const FONT: [u8; 80] = [
    0xF0, 0x90, 0x90, 0x90, 0xF0,
    0x20, 0x60, 0x20, 0x20, 0x70,
    0xF0, 0x10, 0xF0, 0x80, 0xF0,
    0xF0, 0x10, 0xF0, 0x10, 0xF0,
    0x90, 0x90, 0xF0, 0x10, 0x10,
    0xF0, 0x80, 0xF0, 0x10, 0xF0,
    0xF0, 0x80, 0xF0, 0x90, 0xF0,
    0xF0, 0x10, 0x20, 0x40, 0x40,
    0xF0, 0x90, 0xF0, 0x90, 0xF0,
    0xF0, 0x90, 0xF0, 0x10, 0xF0,
    0xF0, 0x90, 0xF0, 0x90, 0x90,
    0xE0, 0x90, 0xE0, 0x90, 0xE0,
    0xF0, 0x80, 0x80, 0x80, 0xF0,
    0xE0, 0x90, 0x90, 0x90, 0xE0,
    0xF0, 0x80, 0xF0, 0x80, 0xF0,
    0xF0, 0x80, 0xF0, 0x80, 0x80,
];

/// What the host has to do after an instruction.
#[derive(Clone, Copy, Debug, PartialEq, Eq, Structural)]
pub enum Action {
    /// Nothing: go on with the next instruction.
    Continue,
    /// The display changed: present it.
    Redraw,
    /// The machine waits for a key. The program counter is back on the
    /// waiting instruction, which runs again at the next step.
    AwaitKey,
}

/// The whole state of the machine.
pub struct Machine {
    /// The address of the next opcode.
    pub pc: u16,
    /// The index register `I`.
    pub index: u16,
    /// The delay timer.
    pub delay: u8,
    /// The sound timer.
    pub sound: u8,
    /// The registers `V0` to `VF`.
    pub v: Seq<u8>,
    /// The return addresses of the pending calls, the latest last.
    pub stack: Seq<u16>,
    /// The memory.
    pub mem: Seq<u8>,
    /// The display, as rows of pixels.
    pub fb: Seq<Seq<bool>>,
}

/// The outcome of an instruction that did not fail.
pub struct Step {
    /// The machine after the instruction.
    pub next: Machine,
    /// What the host has to do.
    pub action: Action,
}

/// The byte at `addr` in the memory of a machine that was just loaded with
/// `rom`.
pub open spec fn boot_byte(rom: Seq<u8>, addr: int) -> u8 {
    if FONT_START <= addr < FONT_START + FONT_SIZE {
        FONT[addr - FONT_START]
    } else if PROGRAM_START <= addr < PROGRAM_START + rom.len() {
        rom[addr - PROGRAM_START]
    } else {
        0
    }
}

/// Where the glyph for `value` starts: five bytes per glyph from
/// `FONT_START` on.
pub open spec fn glyph_addr(value: u8) -> u16 {
    (FONT_START + value * GLYPH_SIZE) as u16
}

/// Where a jump with offset goes: `addr` plus `V0`.
pub open spec fn offset_target(addr: u16, v0: u8) -> u16 {
    (addr + v0) as u16
}

impl Machine {
    /// The shape every machine has: sixteen registers, at most fifteen
    /// pending calls, 4096 bytes of memory and a display of the right size.
    pub open spec fn wf(self) -> bool {
        &&& self.v.len() == REGISTER_COUNT
        &&& self.stack.len() <= STACK_LIMIT
        &&& self.mem.len() == MEMORY_SIZE
        &&& is_grid(self.fb)
    }

    /// The machine right after `rom` was loaded: the font and the program in
    /// memory, everything else zero, execution about to start at
    /// `PROGRAM_START`.
    pub open spec fn boot(rom: Seq<u8>) -> Machine {
        Machine {
            pc: PROGRAM_START,
            index: 0,
            delay: 0,
            sound: 0,
            v: Seq::new(REGISTER_COUNT as nat, |r: int| 0u8),
            stack: Seq::empty(),
            mem: Seq::new(MEMORY_SIZE as nat, |addr: int| boot_byte(rom, addr)),
            fb: blank(),
        }
    }

    /// Whether the program counter addresses two bytes of memory.
    pub open spec fn can_fetch(self) -> bool {
        self.pc + 1 < MEMORY_SIZE
    }

    /// The opcode at the program counter: two bytes, the high one first.
    pub open spec fn opcode_at_pc(self) -> u16 {
        (self.mem[self.pc as int] * 256 + self.mem[self.pc + 1]) as u16
    }

    /// The machine with the program counter moved to `pc`.
    pub open spec fn at(self, pc: u16) -> Machine {
        Machine { pc, ..self }
    }

    /// A fetch: the opcode at the program counter, and the machine with the
    /// program counter moved past it.
    pub open spec fn fetch(self) -> Result<(Machine, u16), ChipError> {
        if self.can_fetch() {
            Ok((self.at((self.pc + 2) as u16), self.opcode_at_pc()))
        } else {
            Err(ChipError::PcOutOfBounds { pc: self.pc })
        }
    }

    /// The machine with register `x` set to `value`.
    pub open spec fn set_reg(self, x: u8, value: u8) -> Machine {
        Machine { v: self.v.update(x as int, value), ..self }
    }

    /// The machine with the delay timer set to `value`.
    pub open spec fn set_delay(self, value: u8) -> Machine {
        Machine { delay: value, ..self }
    }

    /// The machine with the sound timer set to `value`.
    pub open spec fn set_sound(self, value: u8) -> Machine {
        Machine { sound: value, ..self }
    }

    /// The machine with every pixel of the display off.
    pub open spec fn cleared(self) -> Machine {
        Machine { fb: blank(), ..self }
    }

    /// The machine with the index register set to `index`.
    pub open spec fn set_index(self, index: u16) -> Machine {
        Machine { index, ..self }
    }

    /// The machine after a register-to-register operation that reports in
    /// the flag: the result goes to `Vx` first and the flag to `VF` after it,
    /// so that the flag stands even where `x` is 0xF.
    pub open spec fn set_reg_and_flag(self, x: u8, value: u8, flag: u8) -> Machine {
        self.set_reg(x, value).set_reg(FLAG, flag)
    }

    /// The step that leaves the machine as `self` with nothing for the host
    /// to do.
    pub open spec fn done(self) -> Result<Step, ChipError> {
        Ok(Step { next: self, action: Action::Continue })
    }

    /// A conditional skip: the program counter moves past one more
    /// instruction if `taken`. A skip that would take it out of its 16 bits
    /// fails.
    pub open spec fn skip_if(self, taken: bool) -> Result<Step, ChipError> {
        if !taken {
            self.done()
        } else if self.pc + 2 > u16::MAX {
            Err(ChipError::PcOutOfBounds { pc: self.pc })
        } else {
            self.at((self.pc + 2) as u16).done()
        }
    }

    /// A return: the latest pending call's address becomes the program
    /// counter. With no call pending it fails.
    pub open spec fn ret(self, opcode: u16) -> Result<Step, ChipError> {
        if self.stack.len() == 0 {
            Err(ChipError::StackUnderflow { opcode, pc: self.pc })
        } else {
            Machine { pc: self.stack.last(), stack: self.stack.drop_last(), ..self }.done()
        }
    }

    /// A call: the program counter is remembered and moves to `addr`. With
    /// `STACK_LIMIT` calls pending it fails.
    pub open spec fn call(self, opcode: u16, addr: u16) -> Result<Step, ChipError> {
        if self.stack.len() >= STACK_LIMIT {
            Err(ChipError::StackOverflow { opcode, pc: self.pc })
        } else {
            Machine { pc: addr, stack: self.stack.push(self.pc), ..self }.done()
        }
    }

    /// The `n` bytes of memory at the index register: the rows of the sprite
    /// that a draw instruction reads.
    pub open spec fn sprite(self, n: u8) -> Seq<u8> {
        self.mem.subrange(self.index as int, self.index + n)
    }

    /// A draw: the sprite at the index register is XORed onto the display at
    /// (`Vx`, `Vy`), as those registers stand before the instruction, and `VF`
    /// becomes 1 if a lit pixel was turned off, else 0. A sprite that reaches
    /// past the end of memory fails.
    pub open spec fn draw(self, opcode: u16, x: u8, y: u8, n: u8) -> Result<Step, ChipError> {
        if self.index + n > MEMORY_SIZE {
            Err(ChipError::MemoryOutOfBounds { opcode, index: self.index })
        } else {
            let ox = self.v[x as int] as int;
            let oy = self.v[y as int] as int;
            let hit: u8 = if collides(self.fb, self.sprite(n), ox, oy) {
                1
            } else {
                0
            };
            Ok(
                Step {
                    next: Machine {
                        fb: blit(self.fb, self.sprite(n), ox, oy),
                        v: self.v.update(FLAG as int, hit),
                        ..self
                    },
                    action: Action::Redraw,
                },
            )
        }
    }

    /// Waiting for a key: the lowest held key goes to `Vx`. With no key held
    /// the program counter goes back onto the waiting instruction, which
    /// fails where there are no two bytes to go back over.
    pub open spec fn wait_key(self, x: u8, keys: Seq<bool>) -> Result<Step, ChipError> {
        match first_held(keys) {
            Some(key) => self.set_reg(x, key).done(),
            None => if self.pc < 2 {
                Err(ChipError::PcOutOfBounds { pc: self.pc })
            } else {
                Ok(Step { next: self.at((self.pc - 2) as u16), action: Action::AwaitKey })
            },
        }
    }

    /// Storing the decimal digits of `Vx` at the index register: hundreds,
    /// tens, units. Fails where the three bytes do not lie in memory.
    pub open spec fn store_bcd(self, opcode: u16, x: u8) -> Result<Step, ChipError> {
        if self.index + 2 >= MEMORY_SIZE {
            Err(ChipError::MemoryOutOfBounds { opcode, index: self.index })
        } else {
            let digits = bcd(self.v[x as int]);
            Machine {
                mem: self.mem.update(self.index as int, digits.0).update(
                    self.index + 1,
                    digits.1,
                ).update(self.index + 2, digits.2),
                ..self
            }.done()
        }
    }

    /// Storing `V0..=Vx` at the index register. Fails where the bytes do not
    /// lie in memory. The index register stays.
    pub open spec fn dump(self, opcode: u16, x: u8) -> Result<Step, ChipError> {
        if self.index + x >= MEMORY_SIZE {
            Err(ChipError::MemoryOutOfBounds { opcode, index: self.index })
        } else {
            Machine {
                mem: Seq::new(
                    MEMORY_SIZE as nat,
                    |addr: int|
                        if self.index <= addr <= self.index + x {
                            self.v[addr - self.index]
                        } else {
                            self.mem[addr]
                        },
                ),
                ..self
            }.done()
        }
    }

    /// Loading `V0..=Vx` from the index register. Fails where the bytes do
    /// not lie in memory. The index register stays.
    pub open spec fn load(self, opcode: u16, x: u8) -> Result<Step, ChipError> {
        if self.index + x >= MEMORY_SIZE {
            Err(ChipError::MemoryOutOfBounds { opcode, index: self.index })
        } else {
            Machine {
                v: Seq::new(
                    REGISTER_COUNT as nat,
                    |r: int|
                        if r <= x {
                            self.mem[self.index + r]
                        } else {
                            self.v[r]
                        },
                ),
                ..self
            }.done()
        }
    }

    /// What one instruction does: the next machine and the action for the
    /// host, or the fatal condition. `opcode` is the opcode that `ins` was
    /// decoded from and goes into the error, `keys` says for each key
    /// whether it is held, `random` is the byte that the random instruction
    /// masks.
    pub open spec fn apply(
        self,
        ins: Instruction,
        opcode: u16,
        keys: Seq<bool>,
        random: u8,
    ) -> Result<Step, ChipError> {
        match ins {
            Instruction::ClearScreen => Ok(Step { next: self.cleared(), action: Action::Redraw }),
            Instruction::Return => self.ret(opcode),
            Instruction::Jump { addr } => self.at(addr).done(),
            Instruction::Call { addr } => self.call(opcode, addr),
            Instruction::SkipEqImm { x, nn } => self.skip_if(self.v[x as int] == nn),
            Instruction::SkipNeImm { x, nn } => self.skip_if(self.v[x as int] != nn),
            Instruction::SkipEqReg { x, y } => self.skip_if(self.v[x as int] == self.v[y as int]),
            Instruction::SkipNeReg { x, y } => self.skip_if(self.v[x as int] != self.v[y as int]),
            Instruction::LoadImm { x, nn } => self.set_reg(x, nn).done(),
            Instruction::AddImm { x, nn } => self.set_reg(x, wrapped_sum(self.v[x as int], nn)).done(),
            Instruction::Move { x, y } => self.set_reg(x, self.v[y as int]).done(),
            Instruction::Or { x, y } => self.set_reg(x, self.v[x as int] | self.v[y as int]).done(),
            Instruction::And { x, y } => self.set_reg(x, self.v[x as int] & self.v[y as int]).done(),
            Instruction::Xor { x, y } => self.set_reg(x, self.v[x as int] ^ self.v[y as int]).done(),
            Instruction::Add { x, y } => self.set_reg_and_flag(
                x,
                wrapped_sum(self.v[x as int], self.v[y as int]),
                carry(self.v[x as int], self.v[y as int]),
            ).done(),
            Instruction::Sub { x, y } => self.set_reg_and_flag(
                x,
                wrapped_diff(self.v[x as int], self.v[y as int]),
                no_borrow(self.v[x as int], self.v[y as int]),
            ).done(),
            Instruction::SubReverse { x, y } => self.set_reg_and_flag(
                x,
                wrapped_diff(self.v[y as int], self.v[x as int]),
                no_borrow(self.v[y as int], self.v[x as int]),
            ).done(),
            Instruction::ShiftRight { x, y } => self.set_reg_and_flag(
                x,
                shifted_right(self.v[x as int]),
                low_bit(self.v[x as int]),
            ).done(),
            Instruction::ShiftLeft { x, y } => self.set_reg_and_flag(
                x,
                shifted_left(self.v[x as int]),
                high_bit(self.v[x as int]),
            ).done(),
            Instruction::LoadIndex { addr } => self.set_index(addr).done(),
            Instruction::JumpOffset { addr } => self.at(offset_target(addr, self.v[0])).done(),
            Instruction::Random { x, nn } => self.set_reg(x, random & nn).done(),
            Instruction::Draw { x, y, n } => self.draw(opcode, x, y, n),
            Instruction::SkipKey { x } => self.skip_if(key_held(keys, self.v[x as int])),
            Instruction::SkipNotKey { x } => self.skip_if(!key_held(keys, self.v[x as int])),
            Instruction::ReadDelay { x } => self.set_reg(x, self.delay).done(),
            Instruction::WaitKey { x } => self.wait_key(x, keys),
            Instruction::SetDelay { x } => self.set_delay(self.v[x as int]).done(),
            Instruction::SetSound { x } => self.set_sound(self.v[x as int]).done(),
            Instruction::AddIndex { x } => self.set_index(
                wrapped_index(self.index, self.v[x as int]),
            ).done(),
            Instruction::FontAddr { x } => self.set_index(glyph_addr(self.v[x as int])).done(),
            Instruction::StoreBcd { x } => self.store_bcd(opcode, x),
            Instruction::Dump { x } => self.dump(opcode, x),
            Instruction::Load { x } => self.load(opcode, x),
            Instruction::Nop => self.done(),
        }
    }

    /// What executing `opcode` does: it is decoded and applied.
    pub open spec fn execute(self, opcode: u16, keys: Seq<bool>, random: u8) -> Result<
        Step,
        ChipError,
    > {
        self.apply(decode_spec(opcode), opcode, keys, random)
    }

    /// The machine after `ticks` ticks of the 60 Hz clock: both timers have
    /// counted down by `ticks`, or to zero.
    pub open spec fn tick(self, ticks: nat) -> Machine {
        Machine {
            delay: crate::timer::decayed(self.delay, ticks),
            sound: crate::timer::decayed(self.sound, ticks),
            ..self
        }
    }
}

/// The opcode of a return: 00EE.
pub const RETURN_OPCODE: u16 = 0x00EE;

/// Executing the opcode of an instruction with operands in range is applying
/// that instruction.
pub proof fn lemma_execute_applies(m: Machine, ins: Instruction, keys: Seq<bool>, random: u8)
    requires
        ins.wf(),
    ensures
        m.execute(ins.opcode(), keys, random) == m.apply(ins, ins.opcode(), keys, random),
{
    lemma_decode_inverts_opcode(ins);
}

/// Executing 8XY4 on registers that hold `a` and `b` never fails and leaves
/// `VF` at 1 if `a + b > 255` and at 0 if not, whichever registers `x` and
/// `y` are. Where `x` is not the flag register, `Vx` holds the sum modulo
/// 256.
pub proof fn lemma_add_sets_carry(m: Machine, x: u8, y: u8, keys: Seq<bool>, random: u8)
    requires
        m.wf(),
        x < REGISTER_COUNT,
        y < REGISTER_COUNT,
    ensures
        m.execute((Instruction::Add { x, y }).opcode(), keys, random) is Ok,
        ({
            let next = m.execute((Instruction::Add { x, y }).opcode(), keys, random)->Ok_0.next;
            let a = m.v[x as int];
            let b = m.v[y as int];
            &&& next.wf()
            &&& next.v[FLAG as int] == 1 <==> a + b > 255
            &&& next.v[FLAG as int] == 0 <==> a + b <= 255
            &&& x != FLAG ==> next.v[x as int] == (a + b) % 256
            &&& forall|r: int| 0 <= r < REGISTER_COUNT && r != x && r != FLAG ==> next.v[r] == m.v[r]
        }),
{
    lemma_decode_inverts_opcode(Instruction::Add { x, y });
}

/// Executing 8XY5 on registers that hold `a` and `b` never fails and leaves
/// `VF` at 1 if `a >= b` (no borrow) and at 0 if not, whichever registers `x`
/// and `y` are. Where `x` is not the flag register, `Vx` holds the difference
/// modulo 256.
pub proof fn lemma_sub_sets_no_borrow(m: Machine, x: u8, y: u8, keys: Seq<bool>, random: u8)
    requires
        m.wf(),
        x < REGISTER_COUNT,
        y < REGISTER_COUNT,
    ensures
        m.execute((Instruction::Sub { x, y }).opcode(), keys, random) is Ok,
        ({
            let next = m.execute((Instruction::Sub { x, y }).opcode(), keys, random)->Ok_0.next;
            let a = m.v[x as int];
            let b = m.v[y as int];
            &&& next.wf()
            &&& next.v[FLAG as int] == 1 <==> a >= b
            &&& next.v[FLAG as int] == 0 <==> a < b
            &&& x != FLAG ==> next.v[x as int] == (a - b) % 256
            &&& forall|r: int| 0 <= r < REGISTER_COUNT && r != x && r != FLAG ==> next.v[r] == m.v[r]
        }),
{
    lemma_decode_inverts_opcode(Instruction::Sub { x, y });
}

/// Executing FX33 with three bytes of memory at the index register stores
/// there `Vx / 100`, `(Vx / 10) % 10` and `Vx % 10`, which read as hundreds,
/// tens and units give `Vx` back, and touches no other byte.
pub proof fn lemma_bcd_stored(m: Machine, x: u8, keys: Seq<bool>, random: u8)
    requires
        m.wf(),
        x < REGISTER_COUNT,
        m.index + 2 < MEMORY_SIZE,
    ensures
        m.execute((Instruction::StoreBcd { x }).opcode(), keys, random) is Ok,
        ({
            let next = m.execute((Instruction::StoreBcd { x }).opcode(), keys, random)->Ok_0.next;
            let value = m.v[x as int];
            let at = m.index as int;
            &&& next.wf()
            &&& next.mem[at] == value / 100
            &&& next.mem[at + 1] == (value / 10) % 10
            &&& next.mem[at + 2] == value % 10
            &&& 100 * next.mem[at] + 10 * next.mem[at + 1] + next.mem[at + 2] == value
            &&& forall|addr: int|
                0 <= addr < MEMORY_SIZE && !(at <= addr <= at + 2) ==> next.mem[addr] == m.mem[addr]
        }),
{
    lemma_decode_inverts_opcode(Instruction::StoreBcd { x });
}

/// Executing the same draw twice, with coordinates in registers other than
/// the flag register, gives the display back as it was. The second draw
/// leaves `VF` at 1 exactly if the first turned a pixel on, which on a part
/// of the display that was dark is exactly if the sprite has a set bit.
pub proof fn lemma_draw_twice_restores_display(
    m: Machine,
    x: u8,
    y: u8,
    n: u8,
    keys: Seq<bool>,
    random: u8,
)
    requires
        m.wf(),
        x < REGISTER_COUNT,
        y < REGISTER_COUNT,
        n <= MAX_SPRITE_ROWS,
        x != FLAG,
        y != FLAG,
        m.index + n <= MEMORY_SIZE,
    ensures
        m.execute((Instruction::Draw { x, y, n }).opcode(), keys, random) is Ok,
        m.execute((Instruction::Draw { x, y, n }).opcode(), keys, random)->Ok_0.next.execute(
            (Instruction::Draw { x, y, n }).opcode(),
            keys,
            random,
        ) is Ok,
        ({
            let opcode = (Instruction::Draw { x, y, n }).opcode();
            let once = m.execute(opcode, keys, random)->Ok_0.next;
            let twice = once.execute(opcode, keys, random)->Ok_0.next;
            let ox = m.v[x as int] as int;
            let oy = m.v[y as int] as int;
            &&& twice.fb == m.fb
            &&& twice == (Machine { v: twice.v, ..m })
            &&& twice.v[FLAG as int] == 1 <==> lights(m.fb, m.sprite(n), ox, oy)
            &&& twice.v[FLAG as int] == 0 <==> !lights(m.fb, m.sprite(n), ox, oy)
            &&& (has_set_bit(m.sprite(n)) ==> lights(m.fb, m.sprite(n), ox, oy)) ==> (twice.v[FLAG as int]
                == 1 <==> has_set_bit(m.sprite(n)))
        }),
{
    let ins = Instruction::Draw { x, y, n };
    let ox = m.v[x as int] as int;
    let oy = m.v[y as int] as int;
    lemma_decode_inverts_opcode(ins);
    let once = m.execute(ins.opcode(), keys, random)->Ok_0.next;
    assert(once.sprite(n) == m.sprite(n));
    assert(once.v[x as int] == m.v[x as int]);
    assert(once.v[y as int] == m.v[y as int]);
    lemma_draw_twice_restores(m.fb, m.sprite(n), ox, oy);
    lemma_set_bit_touches(m.sprite(n), ox, oy);
}

/// Left alone, the timers only run down: after any number of ticks each is
/// at most what it was and not below zero, more ticks never leave more, and
/// nothing but the timers has changed.
pub proof fn lemma_timers_never_rise(m: Machine, earlier: nat, later: nat)
    requires
        earlier <= later,
    ensures
        0 <= m.tick(later).delay <= m.tick(earlier).delay <= m.delay,
        0 <= m.tick(later).sound <= m.tick(earlier).sound <= m.sound,
        m.tick(earlier).tick((later - earlier) as nat) == m.tick(later),
        m.tick(later) == (Machine { delay: m.tick(later).delay, sound: m.tick(later).sound, ..m }),
{
}

/// Executing an instruction leaves the timers alone: the delay timer
/// changes only by FX15 and the sound timer only by FX18, which set them to
/// `Vx`.
pub proof fn lemma_execute_keeps_timers(m: Machine, opcode: u16, keys: Seq<bool>, random: u8)
    requires
        m.execute(opcode, keys, random) is Ok,
    ensures
        ({
            let next = m.execute(opcode, keys, random)->Ok_0.next;
            &&& next.delay == match decode_spec(opcode) {
                Instruction::SetDelay { x } => m.v[x as int],
                _ => m.delay,
            }
            &&& next.sound == match decode_spec(opcode) {
                Instruction::SetSound { x } => m.v[x as int],
                _ => m.sound,
            }
        }),
{
}

/// A value written to the delay timer is what a read returns until the clock
/// ticks, and after `ticks` ticks the read returns the value run down by
/// `ticks`.
pub proof fn lemma_delay_write_then_read(
    m: Machine,
    x: u8,
    y: u8,
    ticks: nat,
    keys: Seq<bool>,
    random: u8,
)
    requires
        m.wf(),
        x < REGISTER_COUNT,
        y < REGISTER_COUNT,
    ensures
        m.execute((Instruction::SetDelay { x }).opcode(), keys, random) is Ok,
        ({
            let written = m.execute((Instruction::SetDelay { x }).opcode(), keys, random)->Ok_0.next;
            let waited = written.tick(ticks);
            &&& written.delay == m.v[x as int]
            &&& waited.execute((Instruction::ReadDelay { x: y }).opcode(), keys, random) is Ok
            &&& waited.execute((Instruction::ReadDelay { x: y }).opcode(), keys, random)->Ok_0.next.v[y as int]
                == crate::timer::decayed(m.v[x as int], ticks)
            &&& written.execute((Instruction::ReadDelay { x: y }).opcode(), keys, random)->Ok_0.next.v[y as int]
                == m.v[x as int]
        }),
{
    lemma_decode_inverts_opcode(Instruction::SetDelay { x });
    lemma_decode_inverts_opcode(Instruction::ReadDelay { x: y });
}

/// A value written to the sound timer stands until the clock ticks, and
/// after `ticks` ticks the timer holds the value run down by `ticks`.
pub proof fn lemma_sound_write(m: Machine, x: u8, ticks: nat, keys: Seq<bool>, random: u8)
    requires
        m.wf(),
        x < REGISTER_COUNT,
    ensures
        m.execute((Instruction::SetSound { x }).opcode(), keys, random) is Ok,
        ({
            let written = m.execute((Instruction::SetSound { x }).opcode(), keys, random)->Ok_0.next;
            &&& written.sound == m.v[x as int]
            &&& written.tick(ticks).sound == crate::timer::decayed(m.v[x as int], ticks)
        }),
{
    lemma_decode_inverts_opcode(Instruction::SetSound { x });
}

/// The machine after a call to each of `targets` in turn, or the first
/// failure.
pub open spec fn call_all(m: Machine, targets: Seq<u16>) -> Result<Machine, ChipError>
    decreases targets.len(),
{
    if targets.len() == 0 {
        Ok(m)
    } else {
        match call_all(m, targets.drop_last()) {
            Ok(mid) => match mid.call((Instruction::Call { addr: targets.last() }).opcode(), targets.last()) {
                Ok(step) => Ok(step.next),
                Err(e) => Err(e),
            },
            Err(e) => Err(e),
        }
    }
}

/// The machine after `n` returns, or the first failure.
pub open spec fn return_times(m: Machine, n: nat) -> Result<Machine, ChipError>
    decreases n,
{
    if n == 0 {
        Ok(m)
    } else {
        match return_times(m, (n - 1) as nat) {
            Ok(mid) => match mid.ret(RETURN_OPCODE) {
                Ok(step) => Ok(step.next),
                Err(e) => Err(e),
            },
            Err(e) => Err(e),
        }
    }
}

/// The program counter just before call number `i` of a run of calls to
/// `targets`: where the machine stood for the first, the target of the call
/// before for every later one.
pub open spec fn pc_before_call(m: Machine, targets: Seq<u16>, i: int) -> u16 {
    if i <= 0 {
        m.pc
    } else {
        targets[i - 1]
    }
}

/// 2NNN executes as a call to NNN and 00EE as a return.
pub proof fn lemma_call_return_opcodes(m: Machine, addr: u16, keys: Seq<bool>, random: u8)
    requires
        addr < 0x1000,
    ensures
        m.execute((Instruction::Call { addr }).opcode(), keys, random) == m.call((Instruction::Call { addr }).opcode(), addr),
        m.execute(RETURN_OPCODE, keys, random) == m.ret(RETURN_OPCODE),
{
    lemma_decode_inverts_opcode(Instruction::Call { addr });
}

/// A run of calls that fits on the stack succeeds: it pushes the program
/// counter that stood before each call, in order, and ends at the last
/// target.
pub proof fn lemma_calls(m: Machine, targets: Seq<u16>)
    requires
        m.wf(),
        m.stack.len() + targets.len() <= STACK_LIMIT,
    ensures
        call_all(m, targets) == Ok::<Machine, ChipError>(
            Machine {
                pc: pc_before_call(m, targets, targets.len() as int),
                stack: m.stack + Seq::new(targets.len(), |i: int| pc_before_call(m, targets, i)),
                ..m
            },
        ),
    decreases targets.len(),
{
    let pushed = Seq::new(targets.len(), |i: int| pc_before_call(m, targets, i));
    if targets.len() == 0 {
        assert(m.stack + pushed =~= m.stack);
    } else {
        let front = targets.drop_last();
        lemma_calls(m, front);
        let front_pushed = Seq::new(front.len(), |i: int| pc_before_call(m, front, i));
        let mid = call_all(m, front)->Ok_0;
        assert(mid.pc == pc_before_call(m, targets, targets.len() - 1));
        assert(mid.stack.push(mid.pc) =~= m.stack + pushed);
    }
}

/// As many returns as there are pending calls succeed: return number `k`
/// goes to the `k`-th latest address on the stack, and the stack loses its
/// `k` latest addresses.
pub proof fn lemma_returns(m: Machine, k: nat)
    requires
        k <= m.stack.len(),
    ensures
        return_times(m, k) == Ok::<Machine, ChipError>(
            Machine {
                pc: if k == 0 {
                    m.pc
                } else {
                    m.stack[m.stack.len() - k]
                },
                stack: m.stack.take(m.stack.len() - k),
                ..m
            },
        ),
    decreases k,
{
    if k == 0 {
        assert(m.stack.take(m.stack.len() as int) =~= m.stack);
    } else {
        lemma_returns(m, (k - 1) as nat);
        let mid = return_times(m, (k - 1) as nat)->Ok_0;
        assert(mid.stack.drop_last() =~= m.stack.take(m.stack.len() - k));
    }
}

/// Stack discipline: after calls to `targets`, return number `k` puts the
/// program counter back where it stood before the `k`-th latest call, so
/// the returns undo the calls latest first, and as many returns as calls
/// give the machine back as it was.
pub proof fn lemma_calls_then_returns(m: Machine, targets: Seq<u16>, k: nat)
    requires
        m.wf(),
        m.stack.len() + targets.len() <= STACK_LIMIT,
        1 <= k <= targets.len(),
    ensures
        call_all(m, targets) is Ok,
        return_times(call_all(m, targets)->Ok_0, k) is Ok,
        ({
            let back = return_times(call_all(m, targets)->Ok_0, k)->Ok_0;
            &&& back.pc == pc_before_call(m, targets, targets.len() - k)
            &&& back.stack.len() == m.stack.len() + targets.len() - k
            &&& k == targets.len() ==> back == m
        }),
{
    lemma_calls(m, targets);
    let called = call_all(m, targets)->Ok_0;
    lemma_returns(called, k);
    let back = return_times(called, k)->Ok_0;
    if k == targets.len() {
        assert(back.stack =~= m.stack);
    }
}

/// With no call pending at the start, one return more than there were calls
/// fails with a stack underflow, and so does a return with no call at all.
pub proof fn lemma_extra_return_underflows(m: Machine, targets: Seq<u16>)
    requires
        m.wf(),
        m.stack.len() == 0,
        targets.len() <= STACK_LIMIT,
    ensures
        return_times(m, 1) == Err::<Machine, ChipError>(
            ChipError::StackUnderflow { opcode: RETURN_OPCODE, pc: m.pc },
        ),
        call_all(m, targets) is Ok,
        return_times(call_all(m, targets)->Ok_0, targets.len()) == Ok::<Machine, ChipError>(m),
        return_times(call_all(m, targets)->Ok_0, targets.len() + 1) == Err::<Machine, ChipError>(
            ChipError::StackUnderflow { opcode: RETURN_OPCODE, pc: m.pc },
        ),
{
    lemma_calls(m, targets);
    let called = call_all(m, targets)->Ok_0;
    lemma_returns(called, targets.len());
    let back = return_times(called, targets.len())->Ok_0;
    assert(back.stack =~= m.stack);
    assert(back == m);
    assert(return_times(m, 0) == Ok::<Machine, ChipError>(m));
    assert(return_times(called, (targets.len() + 1) as nat) == match return_times(
        called,
        targets.len(),
    ) {
        Ok(mid) => match mid.ret(RETURN_OPCODE) {
            Ok(step) => Ok(step.next),
            Err(e) => Err(e),
        },
        Err(e) => Err(e),
    });
}

/// A call with `STACK_LIMIT` calls pending fails with a stack overflow and
/// any call with fewer pending succeeds.
pub proof fn lemma_call_overflows(m: Machine, addr: u16)
    ensures
        m.call((Instruction::Call { addr }).opcode(), addr) is Ok <==> m.stack.len() < STACK_LIMIT,
        m.stack.len() >= STACK_LIMIT ==> m.call((Instruction::Call { addr }).opcode(), addr) == Err::<
            Step,
            ChipError,
        >(ChipError::StackOverflow { opcode: (Instruction::Call { addr }).opcode(), pc: m.pc }),
{
}

/// Every instruction keeps the shape of the machine.
pub proof fn lemma_execute_keeps_wf(m: Machine, opcode: u16, keys: Seq<bool>, random: u8)
    requires
        m.wf(),
        m.execute(opcode, keys, random) is Ok,
    ensures
        m.execute(opcode, keys, random)->Ok_0.next.wf(),
{
    lemma_decode_wf(opcode);
}

/// An opcode that the instruction set leaves undefined does nothing and is
/// no error.
pub proof fn lemma_undefined_opcode_is_noop(m: Machine, opcode: u16, keys: Seq<bool>, random: u8)
    requires
        decode_spec(opcode) == Instruction::Nop,
    ensures
        m.execute(opcode, keys, random) == Ok::<Step, ChipError>(
            Step { next: m, action: Action::Continue },
        ),
{
}

} // verus!
