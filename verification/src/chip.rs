//! The executable machine: loading, fetching and executing.

use crate::alu;
use crate::display::{Framebuffer, HEIGHT, WIDTH};
use crate::error::ChipError;
use crate::keypad::Keypad;
use crate::machine::{
    Action, Machine, Step, FLAG, FONT, FONT_SIZE, FONT_START, GLYPH_SIZE, MAX_ROM_SIZE, MEMORY_SIZE,
    PROGRAM_START, REGISTER_COUNT,
};
use crate::opcode::{decode, Instruction};
use crate::stack::CallStack;
use vstd::prelude::*;

verus! {

/// A CHIP-8 machine.
#[derive(Debug)]
pub struct Chip {
    pc: u16,
    i: u16,
    dt: u8,
    st: u8,
    v: [u8; 16],
    stack: CallStack,
    mem: [u8; 4096],
    fb: Framebuffer,
}

impl Chip {
    /// The machine as a mathematical value.
    pub closed spec fn view(&self) -> Machine {
        Machine {
            pc: self.pc,
            index: self.i,
            delay: self.dt,
            sound: self.st,
            v: self.v@,
            stack: self.stack@,
            mem: self.mem@,
            fb: self.fb@,
        }
    }

    /// Loads a program: the font goes to `FONT_START`, the program to
    /// `PROGRAM_START`, and execution is about to start there. A program of
    /// more than `MAX_ROM_SIZE` bytes is refused.
    pub fn new(rom: &[u8]) -> (r: Result<Chip, ChipError>)
        ensures
            match r {
                Ok(chip) => rom@.len() <= MAX_ROM_SIZE && chip@ == Machine::boot(rom@) && chip@.wf(),
                Err(e) => rom@.len() > MAX_ROM_SIZE && e == (ChipError::RomTooLarge {
                    len: rom@.len() as usize,
                }),
            },
    {
        if rom.len() > MAX_ROM_SIZE {
            return Err(ChipError::RomTooLarge { len: rom.len() });
        }
        let mut mem: [u8; 4096] = [0u8; 4096];
        let mut k: usize = 0;
        while k < FONT_SIZE
            invariant
                k <= FONT_SIZE,
                forall|addr: int|
                    0 <= addr < MEMORY_SIZE ==> #[trigger] mem@[addr] == if FONT_START <= addr
                        < FONT_START + k {
                        FONT[addr - FONT_START]
                    } else {
                        0
                    },
            decreases FONT_SIZE - k,
        {
            mem[FONT_START as usize + k] = FONT[k];
            k = k + 1;
        }
        let mut k: usize = 0;
        while k < rom.len()
            invariant
                k <= rom@.len() <= MAX_ROM_SIZE,
                forall|addr: int|
                    0 <= addr < MEMORY_SIZE ==> #[trigger] mem@[addr] == if FONT_START <= addr
                        < FONT_START + FONT_SIZE {
                        FONT[addr - FONT_START]
                    } else if PROGRAM_START <= addr < PROGRAM_START + k {
                        rom@[addr - PROGRAM_START]
                    } else {
                        0
                    },
            decreases rom@.len() - k,
        {
            mem[PROGRAM_START as usize + k] = rom[k];
            k = k + 1;
        }
        let chip = Chip {
            pc: PROGRAM_START,
            i: 0,
            dt: 0,
            st: 0,
            v: [0u8; 16],
            stack: CallStack::new(),
            mem,
            fb: Framebuffer::new(),
        };
        proof {
            let boot = Machine::boot(rom@);
            assert(chip@.v =~= boot.v);
            assert(chip@.stack =~= boot.stack);
            assert(chip@.mem =~= boot.mem);
            chip.fb.lemma_view_is_grid();
            chip.stack.lemma_view_len();
        }
        Ok(chip)
    }

    /// Reads the opcode at the program counter, high byte first, and moves
    /// the program counter past it. Fails, and changes nothing, where the
    /// program counter does not address two bytes of memory.
    pub fn fetch(&mut self) -> (r: Result<u16, ChipError>)
        ensures
            match r {
                Ok(opcode) => old(self)@.fetch() == Ok::<(Machine, u16), ChipError>(
                    (final(self)@, opcode),
                ),
                Err(e) => old(self)@.fetch() == Err::<(Machine, u16), ChipError>(e) && final(self)@
                    == old(self)@,
            },
            final(self)@.wf(),
    {
        proof {
            self.stack.lemma_view_len();
            self.fb.lemma_view_is_grid();
        }
        if self.pc as usize + 1 >= MEMORY_SIZE {
            return Err(ChipError::PcOutOfBounds { pc: self.pc });
        }
        let hi: u8 = self.mem[self.pc as usize];
        let lo: u8 = self.mem[self.pc as usize + 1];
        let opcode: u16 = hi as u16 * 256 + lo as u16;
        self.pc = self.pc + 2;
        Ok(opcode)
    }

    /// Executes one opcode. `keys` says which keys are held and `random` is
    /// the byte that the random instruction masks. On success the result
    /// says what the host has to do; on a fatal condition the machine is
    /// left unchanged.
    pub fn execute(&mut self, opcode: u16, keys: &Keypad, random: u8) -> (r: Result<
        Action,
        ChipError,
    >)
        ensures
            match r {
                Ok(action) => old(self)@.execute(opcode, keys@, random) == Ok::<Step, ChipError>(
                    (Step { next: final(self)@, action }),
                ),
                Err(e) => old(self)@.execute(opcode, keys@, random) == Err::<Step, ChipError>(e)
                    && final(self)@ == old(self)@,
            },
            final(self)@.wf(),
    {
        let ins: Instruction = decode(opcode);
        self.run(ins, opcode, keys, random)
    }

    /// Carries out one decoded instruction.
    fn run(&mut self, ins: Instruction, opcode: u16, keys: &Keypad, random: u8) -> (r: Result<
        Action,
        ChipError,
    >)
        requires
            ins.wf(),
        ensures
            steps(old(self)@, final(self)@, r, old(self)@.apply(ins, opcode, keys@, random)),
            final(self)@.wf(),
    {
        proof {
            self.stack.lemma_view_len();
            self.fb.lemma_view_is_grid();
        }
        match ins {
            Instruction::ClearScreen => {
                self.clear_screen();
                Ok(Action::Redraw)
            },
            Instruction::Return => self.ret(opcode),
            Instruction::Jump { addr } => {
                self.jump(addr);
                Ok(Action::Continue)
            },
            Instruction::Call { addr } => self.call(opcode, addr),
            Instruction::SkipEqImm { x, nn } => {
                let taken: bool = self.v[x as usize] == nn;
                self.skip_if(taken)
            },
            Instruction::SkipNeImm { x, nn } => {
                let taken: bool = self.v[x as usize] != nn;
                self.skip_if(taken)
            },
            Instruction::SkipEqReg { x, y } => {
                let taken: bool = self.v[x as usize] == self.v[y as usize];
                self.skip_if(taken)
            },
            Instruction::SkipNeReg { x, y } => {
                let taken: bool = self.v[x as usize] != self.v[y as usize];
                self.skip_if(taken)
            },
            Instruction::LoadImm { x, nn } => {
                self.set_reg(x, nn);
                Ok(Action::Continue)
            },
            Instruction::AddImm { x, nn } => {
                let sum: (u8, u8) = alu::add_with_carry(self.v[x as usize], nn);
                self.set_reg(x, sum.0);
                Ok(Action::Continue)
            },
            Instruction::Move { x, y } => {
                let value: u8 = self.v[y as usize];
                self.set_reg(x, value);
                Ok(Action::Continue)
            },
            Instruction::Or { x, y } => {
                let value: u8 = self.v[x as usize] | self.v[y as usize];
                self.set_reg(x, value);
                Ok(Action::Continue)
            },
            Instruction::And { x, y } => {
                let value: u8 = self.v[x as usize] & self.v[y as usize];
                self.set_reg(x, value);
                Ok(Action::Continue)
            },
            Instruction::Xor { x, y } => {
                let value: u8 = self.v[x as usize] ^ self.v[y as usize];
                self.set_reg(x, value);
                Ok(Action::Continue)
            },
            Instruction::Add { x, y } => {
                let sum: (u8, u8) = alu::add_with_carry(self.v[x as usize], self.v[y as usize]);
                self.set_reg_and_flag(x, sum.0, sum.1);
                Ok(Action::Continue)
            },
            Instruction::Sub { x, y } => {
                let diff: (u8, u8) = alu::sub_with_borrow(self.v[x as usize], self.v[y as usize]);
                self.set_reg_and_flag(x, diff.0, diff.1);
                Ok(Action::Continue)
            },
            Instruction::SubReverse { x, y } => {
                let diff: (u8, u8) = alu::sub_with_borrow(self.v[y as usize], self.v[x as usize]);
                self.set_reg_and_flag(x, diff.0, diff.1);
                Ok(Action::Continue)
            },
            Instruction::ShiftRight { x, y } => {
                let shifted: (u8, u8) = alu::shift_right(self.v[x as usize]);
                self.set_reg_and_flag(x, shifted.0, shifted.1);
                Ok(Action::Continue)
            },
            Instruction::ShiftLeft { x, y } => {
                let shifted: (u8, u8) = alu::shift_left(self.v[x as usize]);
                self.set_reg_and_flag(x, shifted.0, shifted.1);
                Ok(Action::Continue)
            },
            Instruction::LoadIndex { addr } => {
                self.set_index(addr);
                Ok(Action::Continue)
            },
            Instruction::JumpOffset { addr } => {
                let target: u16 = addr + self.v[0] as u16;
                self.jump(target);
                Ok(Action::Continue)
            },
            Instruction::Random { x, nn } => {
                self.set_reg(x, random & nn);
                Ok(Action::Continue)
            },
            Instruction::Draw { x, y, n } => self.draw(opcode, x, y, n),
            Instruction::SkipKey { x } => {
                let taken: bool = keys.is_held(self.v[x as usize]);
                self.skip_if(taken)
            },
            Instruction::SkipNotKey { x } => {
                let taken: bool = !keys.is_held(self.v[x as usize]);
                self.skip_if(taken)
            },
            Instruction::ReadDelay { x } => {
                let value: u8 = self.dt;
                self.set_reg(x, value);
                Ok(Action::Continue)
            },
            Instruction::WaitKey { x } => self.wait_key(x, keys),
            Instruction::SetDelay { x } => {
                let value: u8 = self.v[x as usize];
                self.set_delay(value);
                Ok(Action::Continue)
            },
            Instruction::SetSound { x } => {
                let value: u8 = self.v[x as usize];
                self.set_sound(value);
                Ok(Action::Continue)
            },
            Instruction::AddIndex { x } => {
                let index: u16 = self.i.wrapping_add(self.v[x as usize] as u16);
                self.set_index(index);
                Ok(Action::Continue)
            },
            Instruction::FontAddr { x } => {
                let index: u16 = FONT_START + self.v[x as usize] as u16 * GLYPH_SIZE;
                self.set_index(index);
                Ok(Action::Continue)
            },
            Instruction::StoreBcd { x } => self.store_bcd(opcode, x),
            Instruction::Dump { x } => self.dump(opcode, x),
            Instruction::Load { x } => self.load(opcode, x),
            Instruction::Nop => Ok(Action::Continue),
        }
    }

    /// Turns every pixel off.
    fn clear_screen(&mut self)
        ensures
            final(self)@ == old(self)@.cleared(),
            final(self)@.wf(),
    {
        proof {
            self.stack.lemma_view_len();
        }
        self.fb.clear();
        proof {
            self.fb.lemma_view_is_grid();
        }
    }

    /// Moves the program counter.
    fn jump(&mut self, pc: u16)
        ensures
            final(self)@ == old(self)@.at(pc),
            final(self)@.wf(),
    {
        proof {
            self.stack.lemma_view_len();
            self.fb.lemma_view_is_grid();
        }
        self.pc = pc;
    }

    /// Sets the index register.
    fn set_index(&mut self, index: u16)
        ensures
            final(self)@ == old(self)@.set_index(index),
            final(self)@.wf(),
    {
        proof {
            self.stack.lemma_view_len();
            self.fb.lemma_view_is_grid();
        }
        self.i = index;
    }

    /// Sets the delay timer.
    fn set_delay(&mut self, value: u8)
        ensures
            final(self)@ == old(self)@.set_delay(value),
            final(self)@.wf(),
    {
        proof {
            self.stack.lemma_view_len();
            self.fb.lemma_view_is_grid();
        }
        self.dt = value;
    }

    /// Sets the sound timer.
    fn set_sound(&mut self, value: u8)
        ensures
            final(self)@ == old(self)@.set_sound(value),
            final(self)@.wf(),
    {
        proof {
            self.stack.lemma_view_len();
            self.fb.lemma_view_is_grid();
        }
        self.st = value;
    }

    /// Sets register `x`.
    fn set_reg(&mut self, x: u8, value: u8)
        requires
            x < REGISTER_COUNT,
        ensures
            final(self)@ == old(self)@.set_reg(x, value),
            final(self)@.wf(),
    {
        proof {
            self.stack.lemma_view_len();
            self.fb.lemma_view_is_grid();
        }
        self.v[x as usize] = value;
    }

    /// Sets register `x`, then the flag register.
    fn set_reg_and_flag(&mut self, x: u8, value: u8, flag: u8)
        requires
            x < REGISTER_COUNT,
        ensures
            final(self)@ == old(self)@.set_reg_and_flag(x, value, flag),
            final(self)@.wf(),
    {
        self.set_reg(x, value);
        self.set_reg(FLAG, flag);
    }

    /// Moves the program counter past one more instruction if `taken`.
    fn skip_if(&mut self, taken: bool) -> (r: Result<Action, ChipError>)
        ensures
            steps(old(self)@, final(self)@, r, old(self)@.skip_if(taken)),
            final(self)@.wf(),
    {
        proof {
            self.stack.lemma_view_len();
            self.fb.lemma_view_is_grid();
        }
        if !taken {
            return Ok(Action::Continue);
        }
        if self.pc > u16::MAX - 2 {
            return Err(ChipError::PcOutOfBounds { pc: self.pc });
        }
        self.pc = self.pc + 2;
        Ok(Action::Continue)
    }

    /// Returns from a subroutine.
    fn ret(&mut self, opcode: u16) -> (r: Result<Action, ChipError>)
        ensures
            steps(old(self)@, final(self)@, r, old(self)@.ret(opcode)),
            final(self)@.wf(),
    {
        proof {
            self.stack.lemma_view_len();
            self.fb.lemma_view_is_grid();
        }
        match self.stack.pop() {
            Some(addr) => {
                self.pc = addr;
                Ok(Action::Continue)
            },
            None => Err(ChipError::StackUnderflow { opcode, pc: self.pc }),
        }
    }

    /// Calls the subroutine at `addr`.
    fn call(&mut self, opcode: u16, addr: u16) -> (r: Result<Action, ChipError>)
        ensures
            steps(old(self)@, final(self)@, r, old(self)@.call(opcode, addr)),
            final(self)@.wf(),
    {
        proof {
            self.stack.lemma_view_len();
            self.fb.lemma_view_is_grid();
        }
        if !self.stack.push(self.pc) {
            return Err(ChipError::StackOverflow { opcode, pc: self.pc });
        }
        self.pc = addr;
        Ok(Action::Continue)
    }

    /// Draws the `n`-row sprite at the index register at (`Vx`, `Vy`).
    fn draw(&mut self, opcode: u16, x: u8, y: u8, n: u8) -> (r: Result<Action, ChipError>)
        requires
            x < REGISTER_COUNT,
            y < REGISTER_COUNT,
            n < 16,
        ensures
            steps(old(self)@, final(self)@, r, old(self)@.draw(opcode, x, y, n)),
            final(self)@.wf(),
    {
        proof {
            self.stack.lemma_view_len();
            self.fb.lemma_view_is_grid();
        }
        let start: usize = self.i as usize;
        let end: usize = start + n as usize;
        if end > MEMORY_SIZE {
            return Err(ChipError::MemoryOutOfBounds { opcode, index: self.i });
        }
        let ox: u8 = self.v[x as usize];
        let oy: u8 = self.v[y as usize];
        let sprite: &[u8] = vstd::slice::slice_subrange(self.mem.as_slice(), start, end);
        let hit: bool = self.fb.draw_sprite(sprite, ox, oy);
        self.v[FLAG as usize] = if hit {
            1
        } else {
            0
        };
        proof {
            self.fb.lemma_view_is_grid();
        }
        Ok(Action::Redraw)
    }

    /// Stores the lowest held key in `Vx`, or goes back onto the waiting
    /// instruction.
    fn wait_key(&mut self, x: u8, keys: &Keypad) -> (r: Result<Action, ChipError>)
        requires
            x < REGISTER_COUNT,
        ensures
            steps(old(self)@, final(self)@, r, old(self)@.wait_key(x, keys@)),
            final(self)@.wf(),
    {
        proof {
            self.stack.lemma_view_len();
            self.fb.lemma_view_is_grid();
        }
        match keys.first_held() {
            Some(key) => {
                self.set_reg(x, key);
                Ok(Action::Continue)
            },
            None => {
                if self.pc < 2 {
                    return Err(ChipError::PcOutOfBounds { pc: self.pc });
                }
                self.pc = self.pc - 2;
                Ok(Action::AwaitKey)
            },
        }
    }

    /// Stores the decimal digits of `Vx` at the index register.
    fn store_bcd(&mut self, opcode: u16, x: u8) -> (r: Result<Action, ChipError>)
        requires
            x < REGISTER_COUNT,
        ensures
            steps(old(self)@, final(self)@, r, old(self)@.store_bcd(opcode, x)),
            final(self)@.wf(),
    {
        proof {
            self.stack.lemma_view_len();
            self.fb.lemma_view_is_grid();
        }
        let at: usize = self.i as usize;
        if at + 2 >= MEMORY_SIZE {
            return Err(ChipError::MemoryOutOfBounds { opcode, index: self.i });
        }
        let digits: (u8, u8, u8) = alu::digits(self.v[x as usize]);
        self.mem[at] = digits.0;
        self.mem[at + 1] = digits.1;
        self.mem[at + 2] = digits.2;
        Ok(Action::Continue)
    }

    /// Stores `V0..=Vx` at the index register.
    fn dump(&mut self, opcode: u16, x: u8) -> (r: Result<Action, ChipError>)
        requires
            x < REGISTER_COUNT,
        ensures
            steps(old(self)@, final(self)@, r, old(self)@.dump(opcode, x)),
            final(self)@.wf(),
    {
        proof {
            self.stack.lemma_view_len();
            self.fb.lemma_view_is_grid();
        }
        let at: usize = self.i as usize;
        if at + x as usize >= MEMORY_SIZE {
            return Err(ChipError::MemoryOutOfBounds { opcode, index: self.i });
        }
        let mut r: usize = 0;
        while r <= x as usize
            invariant
                r <= x + 1,
                x < REGISTER_COUNT,
                at == old(self).i,
                at + x < MEMORY_SIZE,
                self.pc == old(self).pc,
                self.i == old(self).i,
                self.dt == old(self).dt,
                self.st == old(self).st,
                self.v == old(self).v,
                self.stack == old(self).stack,
                self.fb == old(self).fb,
                forall|addr: int|
                    0 <= addr < MEMORY_SIZE ==> #[trigger] self.mem@[addr] == if at <= addr < at
                        + r {
                        old(self).v@[addr - at]
                    } else {
                        old(self).mem@[addr]
                    },
            decreases x + 1 - r,
        {
            self.mem[at + r] = self.v[r];
            r = r + 1;
        }
        proof {
            let expected = old(self)@.dump(opcode, x);
            assert(expected is Ok);
            assert(self@.mem =~= expected->Ok_0.next.mem);
        }
        Ok(Action::Continue)
    }

    /// Loads `V0..=Vx` from the index register.
    fn load(&mut self, opcode: u16, x: u8) -> (r: Result<Action, ChipError>)
        requires
            x < REGISTER_COUNT,
        ensures
            steps(old(self)@, final(self)@, r, old(self)@.load(opcode, x)),
            final(self)@.wf(),
    {
        proof {
            self.stack.lemma_view_len();
            self.fb.lemma_view_is_grid();
        }
        let at: usize = self.i as usize;
        if at + x as usize >= MEMORY_SIZE {
            return Err(ChipError::MemoryOutOfBounds { opcode, index: self.i });
        }
        let mut r: usize = 0;
        while r <= x as usize
            invariant
                r <= x + 1,
                x < REGISTER_COUNT,
                at == old(self).i,
                at + x < MEMORY_SIZE,
                self.pc == old(self).pc,
                self.i == old(self).i,
                self.dt == old(self).dt,
                self.st == old(self).st,
                self.mem == old(self).mem,
                self.stack == old(self).stack,
                self.fb == old(self).fb,
                forall|k: int|
                    0 <= k < REGISTER_COUNT ==> #[trigger] self.v@[k] == if k < r {
                        old(self).mem@[at + k]
                    } else {
                        old(self).v@[k]
                    },
            decreases x + 1 - r,
        {
            self.v[r] = self.mem[at + r];
            r = r + 1;
        }
        proof {
            let expected = old(self)@.load(opcode, x);
            assert(expected is Ok);
            assert(self@.v =~= expected->Ok_0.next.v);
        }
        Ok(Action::Continue)
    }

    /// The program counter.
    pub fn pc(&self) -> (pc: u16)
        ensures
            pc == self@.pc,
    {
        self.pc
    }

    /// The index register.
    pub fn index(&self) -> (index: u16)
        ensures
            index == self@.index,
    {
        self.i
    }

    /// The delay timer.
    pub fn delay_timer(&self) -> (value: u8)
        ensures
            value == self@.delay,
    {
        self.dt
    }

    /// The sound timer.
    pub fn sound_timer(&self) -> (value: u8)
        ensures
            value == self@.sound,
    {
        self.st
    }

    /// Register `Vx`.
    pub fn register(&self, x: u8) -> (value: u8)
        requires
            x < REGISTER_COUNT,
        ensures
            value == self@.v[x as int],
    {
        self.v[x as usize]
    }

    /// How many calls are pending.
    pub fn stack_depth(&self) -> (depth: u8)
        ensures
            depth == self@.stack.len(),
    {
        self.stack.depth()
    }

    /// The byte of memory at `addr`.
    pub fn memory(&self, addr: u16) -> (byte: u8)
        requires
            addr < MEMORY_SIZE,
        ensures
            byte == self@.mem[addr as int],
    {
        self.mem[addr as usize]
    }

    /// The pixel in column `x` of row `y`.
    pub fn pixel(&self, x: usize, y: usize) -> (lit: bool)
        requires
            x < WIDTH,
            y < HEIGHT,
        ensures
            lit == self@.fb[y as int][x as int],
    {
        self.fb.pixel(x, y)
    }

    /// The display, for the host to present.
    pub fn framebuffer(&self) -> (fb: &Framebuffer)
        ensures
            fb@ == self@.fb,
    {
        &self.fb
    }

    /// Lets `ticks` ticks of the 60 Hz clock pass: each timer counts down by
    /// `ticks` and stops at zero. Nothing else changes.
    pub fn tick_timers(&mut self, ticks: u64)
        ensures
            final(self)@ == old(self)@.tick(ticks as nat),
            final(self)@.wf(),
    {
        proof {
            self.stack.lemma_view_len();
            self.fb.lemma_view_is_grid();
        }
        self.dt = if ticks >= self.dt as u64 {
            0
        } else {
            self.dt - ticks as u8
        };
        self.st = if ticks >= self.st as u64 {
            0
        } else {
            self.st - ticks as u8
        };
    }
}

/// Whether a result `r` that left the machine as `after` is what `expected`
/// asks for of a machine that was `before`: on success the machine and the
/// action of `expected`, on failure its error and the machine untouched.
spec fn steps(
    before: Machine,
    after: Machine,
    r: Result<Action, ChipError>,
    expected: Result<Step, ChipError>,
) -> bool {
    match r {
        Ok(action) => expected == Ok::<Step, ChipError>(Step { next: after, action }),
        Err(e) => expected == Err::<Step, ChipError>(e) && after == before,
    }
}

} // verus!
