//! The CHIP-8 processor: registers, memory, stack, screen, keypad and timers,
//! and the fetch-decode-execute cycle.
use vstd::prelude::*;

use crate::memory::{initial_memory, RAM, RAM_SIZE, REGISTER_COUNT, Registers};

pub mod instructions;
pub mod laws;
pub mod semantics;

use self::semantics::{
    alu, any_pressed, blank_screen, can_cycle, current_opcode, cycle, decode_word, draw,
    draw_row, draw_rows, execute, execute_ok, fetched, first_pressed, is_defined,
    is_first_pressed, misc, plot, rows_drawn, uses_random, wait_for_key, word_at,
    DISPLAY_HEIGHT, DISPLAY_WIDTH, FLAG, KEY_COUNT, Machine, PROGRAM_START,
};

verus! {

/// An instruction split into its opcode nibble, `X`, `Y`, `N`, `NN` and `NNN`.
pub type Opcode = (u8, u8, u8, u8, u8, u16);

/// The screen: 32 rows of 64 pixels.
pub type Display = [[bool; 64]; 32];

/// The keypad: whether each of the 16 keys is down.
pub type Keyboard = [bool; 16];

/// What a timer becomes when it is decremented: one less, where 0 wraps
/// round to 255.
pub open spec fn decremented(v: u8) -> u8 {
    if v == 0 {
        0xFF
    } else {
        (v - 1) as u8
    }
}

/// A countdown register of the machine (delay or sound timer).
///
/// A timer is a plain value owned by its `CPU`: it has no `Clone`, and
/// whoever needs to watch it from another thread shares the whole `CPU`
/// (behind a lock) and reads it through `CPU::delay_timer` or
/// `CPU::sound_timer`.
pub struct Timer {
    value: u8,
}

impl View for Timer {
    type V = u8;

    closed spec fn view(&self) -> u8 {
        self.value
    }
}

impl Default for Timer {
    fn default() -> (t: Self)
        ensures
            t@ == 0,
    {
        Timer { value: 0 }
    }
}

impl Timer {
    /// Sets the timer to `value`.
    pub fn set(&mut self, value: u8)
        ensures
            final(self)@ == value,
    {
        self.value = value;
    }

    /// The current value of the timer.
    pub fn get(&self) -> (v: u8)
        ensures
            v == self@,
    {
        self.value
    }

    /// Decrements the timer by one (see `decremented`).
    pub fn decrement(&mut self)
        ensures
            final(self)@ == decremented(old(self)@),
    {
        self.value = self.value.wrapping_sub(1);
    }
}

/// Progress of the key wait of `FX0A`.
#[derive(Clone, Copy)]
pub enum State {
    /// No wait in progress.
    Running,
    /// Every key was up; waiting for one to go down.
    Waiting,
    /// The key went down; waiting for it to go up.
    Pressed(u8),
}

/// The processor and everything it owns.
pub struct CPU {
    ram: RAM,
    registers: Registers,
    pc: usize,
    i: u16,
    stack: Vec<u16>,
    display: Display,
    keyboard: Keyboard,
    delay_timer: Timer,
    sound_timer: Timer,
    state: State,
}

impl View for CPU {
    type V = Machine;

    closed spec fn view(&self) -> Machine {
        Machine {
            ram: self.ram@,
            regs: self.registers@,
            pc: self.pc as int,
            i: self.i,
            stack: self.stack@,
            screen: Seq::new(DISPLAY_HEIGHT as nat, |y: int| self.display@[y]@),
            keys: self.keyboard@,
            delay: self.delay_timer@,
            sound: self.sound_timer@,
            state: self.state,
        }
    }
}

/// The machine at power-on: font in memory, program counter at the program
/// start, everything else cleared.
pub open spec fn power_on() -> Machine {
    Machine {
        ram: initial_memory(),
        regs: Seq::new(REGISTER_COUNT as nat, |k: int| 0u8),
        pc: PROGRAM_START as int,
        i: 0,
        stack: Seq::empty(),
        screen: blank_screen(),
        keys: Seq::new(KEY_COUNT as nat, |k: int| false),
        delay: 0,
        sound: 0,
        state: State::Running,
    }
}

impl Default for CPU {
    fn default() -> (cpu: Self)
        ensures
            cpu@ == power_on(),
            cpu.wf(),
    {
        let cpu = CPU {
            ram: RAM::default(),
            registers: Registers::default(),
            pc: 0x200,
            i: 0,
            stack: Vec::with_capacity(16),
            display: [[false; 64]; 32],
            keyboard: [false; 16],
            delay_timer: Timer::default(),
            sound_timer: Timer::default(),
            state: State::Running,
        };
        assert forall|y: int| 0 <= y < DISPLAY_HEIGHT implies #[trigger] cpu@.screen[y]
            =~= blank_screen()[y] by {
            assert(cpu.display@[y]@ =~= Seq::new(DISPLAY_WIDTH as nat, |x: int| false));
        }
        assert(cpu@.screen =~= blank_screen());
        assert(cpu@.keys =~= Seq::new(KEY_COUNT as nat, |k: int| false));
        cpu
    }
}

impl CPU {
    /// Every part of the machine has its size, and a remembered key is a key.
    pub open spec fn wf(&self) -> bool {
        self@.wf()
    }

    proof fn lemma_sizes(&self)
        ensures
            self@.ram.len() == RAM_SIZE,
            self@.regs.len() == REGISTER_COUNT,
            self@.screen.len() == DISPLAY_HEIGHT,
            forall|y: int| 0 <= y < DISPLAY_HEIGHT ==> #[trigger] self@.screen[y].len() == DISPLAY_WIDTH,
            self@.keys.len() == KEY_COUNT,
    {
        self.ram.lemma_len();
        self.registers.lemma_len();
    }
}

/// The parts of an instruction are in range, as `decode` leaves them.
pub open spec fn opcode_in_range(op: Opcode) -> bool {
    &&& op.0 < 0x10
    &&& op.1 < 0x10
    &&& op.2 < 0x10
    &&& op.3 < 0x10
    &&& op.4 == op.2 * 0x10 + op.3
    &&& op.5 < 0x1000
    &&& op.5 == op.1 as int * 0x100 + op.4
}

impl CPU {
    /// Reads the instruction at the program counter and moves past it.
    fn fetch(&mut self) -> (instruction: u16)
        requires
            old(self).wf(),
            old(self)@.pc + 1 < RAM_SIZE,
        ensures
            instruction == word_at(old(self)@.ram, old(self)@.pc),
            final(self)@ == fetched(old(self)@),
            final(self).wf(),
    {
        let hi = self.ram.read(self.pc);
        let lo = self.ram.read(self.pc + 1);
        assert(((hi as u16) << 8u16) == hi as u16 * 256) by (bit_vector);
        let instruction = ((hi as u16) << 8) + (lo as u16);
        self.pc += 2;
        instruction
    }

    /// Splits an instruction word into its parts.
    fn decode(&self, instruction: u16) -> (op: Opcode)
        ensures
            op == decode_word(instruction),
            opcode_in_range(op),
    {
        let w = instruction;
        assert((w & 0xF000u16) >> 12u16 == w / 0x1000 && w / 0x1000 < 0x10) by (bit_vector);
        assert((w & 0x0F00u16) >> 8u16 == (w / 0x100) % 0x10) by (bit_vector);
        assert((w & 0x00F0u16) >> 4u16 == (w / 0x10) % 0x10) by (bit_vector);
        assert(w & 0x000Fu16 == w % 0x10) by (bit_vector);
        assert(w & 0x00FFu16 == w % 0x100) by (bit_vector);
        assert(w & 0x0FFFu16 == w % 0x1000) by (bit_vector);
        assert(w % 0x100 == ((w / 0x10) % 0x10) * 0x10 + w % 0x10) by (bit_vector);
        assert(w % 0x1000 == ((w / 0x100) % 0x10) * 0x100 + w % 0x100) by (bit_vector);
        (
            ((instruction & 0xF000) >> 12) as u8,
            ((instruction & 0x0F00) >> 8) as u8,
            ((instruction & 0x00F0) >> 4) as u8,
            (instruction & 0x000F) as u8,
            (instruction & 0x00FF) as u8,
            instruction & 0x0FFF,
        )
    }
}

impl CPU {
    /// Carries out a decoded instruction; `random` is the byte `CXNN` uses.
    fn execute(&mut self, instruction: Opcode, random: u8)
        requires
            old(self).wf(),
            opcode_in_range(instruction),
            is_defined(instruction),
            execute_ok(old(self)@, instruction),
            old(self)@.pc <= RAM_SIZE + 1,
        ensures
            final(self)@ == execute(old(self)@, instruction, random),
            final(self).wf(),
    {
        let (code, x, y, n, _, _) = instruction;
        match code {
            0x8 => self.execute_alu(x, y, n),
            // DXYN -> Draws the display
            0xD => self.draw(x, y, n),
            0xF => self.execute_misc(instruction),
            _ => self.execute_control(instruction, random),
        }
    }

    /// The instructions on control flow, single registers, the index register,
    /// the screen as a whole and single keys.
    fn execute_control(&mut self, instruction: Opcode, random: u8)
        requires
            old(self).wf(),
            opcode_in_range(instruction),
            is_defined(instruction),
            execute_ok(old(self)@, instruction),
            old(self)@.pc <= RAM_SIZE + 1,
            instruction.0 != 0x8 && instruction.0 != 0xD && instruction.0 != 0xF,
        ensures
            final(self)@ == execute(old(self)@, instruction, random),
            final(self).wf(),
    {
        let (code, x, y, n, nn, nnn) = instruction;
        proof {
            self.lemma_sizes();
        }
        match code {
            0x0 => {
                if n == 0x0 {
                    // 00E0 -> Clear Screen
                    self.display = [[false; 64]; 32];
                    assert forall|r: int| 0 <= r < DISPLAY_HEIGHT implies #[trigger] self@.screen[r]
                        =~= blank_screen()[r] by {
                        assert(self.display@[r]@ =~= Seq::new(DISPLAY_WIDTH as nat, |c: int| false));
                    }
                    assert(self@.screen =~= blank_screen());
                } else {
                    // 00EE -> Return from subroutine
                    let ret = self.stack.pop().unwrap();
                    self.pc = ret as usize;
                }
            },
            // 1NNN -> Jump
            0x1 => self.pc = nnn as usize,
            // 2NNN -> Call subroutine
            0x2 => {
                self.stack.push(self.pc as u16);
                self.pc = nnn as usize;
            },
            // 3XNN -> Skip one if VX == NN
            0x3 => {
                if self.registers.read(x) == nn {
                    self.pc += 2;
                }
            },
            // 4XNN -> Skip one if VX != NN
            0x4 => {
                if self.registers.read(x) != nn {
                    self.pc += 2;
                }
            },
            // 5XY0 -> Skip one if VX == VY
            0x5 => {
                if self.registers.read(x) == self.registers.read(y) {
                    self.pc += 2;
                }
            },
            // 6XNN -> Set VX to NN
            0x6 => self.registers.write(x, nn),
            // 7XNN -> Add NN to VX
            0x7 => {
                let vx = self.registers.read(x);
                self.registers.write(x, vx.wrapping_add(nn));
            },
            // 9XY0 -> Skip one if VX != VY
            0x9 => {
                if self.registers.read(x) != self.registers.read(y) {
                    self.pc += 2;
                }
            },
            // ANNN -> Set I to NNN
            0xA => self.i = nnn,
            // BNNN -> Jump to address NNN + V0
            0xB => {
                let v0 = self.registers.read(0x0u8);
                self.pc = (nnn + (v0 as u16)) as usize;
            },
            // CXNN -> Sets VX to RAND & NN
            0xC => self.registers.write(x, random & nn),
            _ => {
                let key = self.registers.read(x);
                let pressed = self.keyboard[key as usize];
                if y == 0x9 {
                    // EX9E -> Skip one if key VX is pressed
                    if pressed {
                        self.pc += 2;
                    }
                } else {
                    // EXA1 -> Skip one if key VX is not pressed
                    if !pressed {
                        self.pc += 2;
                    }
                }
            },
        }
    }

    /// `8XYN`: register arithmetic.
    #[verifier::spinoff_prover]
    #[verifier::rlimit(40)]
    fn execute_alu(&mut self, x: u8, y: u8, n: u8)
        requires
            old(self).wf(),
            x < 0x10,
            y < 0x10,
            n <= 0x7 || n == 0xE,
        ensures
            final(self)@ == alu(old(self)@, x, y, n),
            final(self).wf(),
    {
        let vx = self.registers.read(x);
        let vy = self.registers.read(y);
        match n {
            // 8XY0 -> Set VX to VY
            0x0 => self.registers.write(x, vy),
            // 8XY1 -> Set VX to VX OR VY
            0x1 => {
                self.registers.write(x, vx | vy);
                self.registers.write(FLAG, 0);
            },
            // 8XY2 -> Set VX to VX AND VY
            0x2 => {
                self.registers.write(x, vx & vy);
                self.registers.write(FLAG, 0);
            },
            // 8XY3 -> Set VX to VX XOR VY
            0x3 => {
                self.registers.write(x, vx ^ vy);
                self.registers.write(FLAG, 0);
            },
            // 8XY4 -> Add VY to VX (with carry flag)
            0x4 => {
                let sum = vx.wrapping_add(vy);
                let carry = vx as u16 + vy as u16 > 0xFF;
                self.registers.write(x, sum);
                self.registers.write(FLAG, if carry { 1 } else { 0 });
            },
            // 8XY5 -> Subtract VY from VX (with carry flag)
            0x5 => {
                let sub = vx.wrapping_sub(vy);
                let borrow = vx < vy;
                self.registers.write(x, sub);
                self.registers.write(FLAG, if borrow { 0 } else { 1 });
            },
            // 8XY6 -> Set VX to VY >> 1 (with carry flag)
            0x6 => {
                assert(vy >> 1u8 == vy / 2 && vy & 1u8 == vy % 2) by (bit_vector);
                self.registers.write(x, vy >> 1);
                self.registers.write(FLAG, vy & 0b00000001);
            },
            // 8XY7 -> Subtract VX from VY and set the result to VX (with carry flag)
            0x7 => {
                let sub = vy.wrapping_sub(vx);
                let borrow = vy < vx;
                self.registers.write(x, sub);
                self.registers.write(FLAG, if borrow { 0 } else { 1 });
            },
            // 8XYE -> Set VX to VY << 1 (with carry flag)
            _ => {
                assert((vy << 1u8) as int == (vy * 2) % 0x100 && (vy & 0x80u8) >> 7u8 == vy / 0x80)
                    by (bit_vector);
                self.registers.write(x, vy << 1);
                self.registers.write(FLAG, (vy & 0b10000000) >> 7);
            },
        }
    }
}

impl CPU {
    /// Flips the pixel at row `y`, column `x`, and raises `VF` if it was on.
    fn plot(&mut self, y: usize, x: usize)
        requires
            old(self).wf(),
            y < DISPLAY_HEIGHT,
            x < DISPLAY_WIDTH,
        ensures
            final(self)@ == plot(old(self)@, y as int, x as int),
            final(self).wf(),
    {
        let ghost before = self@;
        if self.display[y][x] {
            self.registers.write(FLAG, 1);
        }
        let mut row = self.display[y];
        row[x] = !row[x];
        self.display[y] = row;
        assert(self@.screen =~= plot(before, y as int, x as int).screen);
    }

    /// `DXYN`: draws an `N`-row sprite from memory at `I`.
    fn draw(&mut self, x: u8, y: u8, n: u8)
        requires
            old(self).wf(),
            x < 0x10,
            y < 0x10,
            n < 0x10,
            old(self)@.i + rows_drawn(old(self)@, y, n) <= RAM_SIZE,
        ensures
            final(self)@ == draw(old(self)@, x, y, n),
            final(self).wf(),
    {
        let ghost target = draw(self@, x, y, n);
        let ghost rows = rows_drawn(self@, y, n);
        let mut vy = self.registers.read(y) % 32;
        self.registers.write(FLAG, 0);
        let ghost top = vy as int;
        let mut i: u16 = 0;
        while i < n as u16
            invariant
                self.wf(),
                x < 0x10,
                n < 0x10,
                0 <= top < DISPLAY_HEIGHT,
                vy == top + i,
                vy <= DISPLAY_HEIGHT,
                i <= n,
                rows == (if n < DISPLAY_HEIGHT - top { n as int } else { DISPLAY_HEIGHT - top }),
                self@.i + rows <= RAM_SIZE,
                draw_rows(self@, x, n, i as int, vy as int) == target,
            ensures
                self@ == target,
            decreases n - i,
        {
            let mut vx = self.registers.read(x) % 64;
            if vy >= 32 {
                break;
            }
            let s = self.ram.read((self.i + i) as usize);
            let ghost row_start = self@;
            let mut b: u8 = 0;
            while b < 8
                invariant
                    self.wf(),
                    vy < DISPLAY_HEIGHT,
                    vx == row_start.reg(x) as int % DISPLAY_WIDTH as int + b,
                    vx <= DISPLAY_WIDTH,
                    b <= 8,
                    self@.i == row_start.i,
                    self@.ram == row_start.ram,
                    draw_row(self@, s, vy as int, vx as int, b as int) == draw_row(
                        row_start,
                        s,
                        vy as int,
                        row_start.reg(x) as int % DISPLAY_WIDTH as int,
                        0,
                    ),
                ensures
                    self@ == draw_row(
                        row_start,
                        s,
                        vy as int,
                        row_start.reg(x) as int % DISPLAY_WIDTH as int,
                        0,
                    ),
                decreases 8 - b,
            {
                if vx >= 64 {
                    break;
                }
                let k = 7 - b;
                assert(((s & (1u8 << k)) >> k == 1u8) == ((s >> k) & 1u8 == 1u8)) by (bit_vector)
                    requires
                        k < 8,
                ;
                let pixel = ((s & (1 << (7 - b))) >> (7 - b)) == 1;
                if pixel {
                    self.plot(vy as usize, vx as usize);
                }
                vx += 1;
                b += 1;
            }
            vy += 1;
            i += 1;
        }
    }
}

impl CPU {
    /// Whether some key is down.
    fn any_key_pressed(&self) -> (pressed: bool)
        requires
            self.wf(),
        ensures
            pressed == any_pressed(self@.keys),
    {
        let mut k: usize = 0;
        while k < 16
            invariant
                self.wf(),
                k <= KEY_COUNT,
                forall|j: int| 0 <= j < k ==> !#[trigger] self@.keys[j],
            decreases KEY_COUNT - k,
        {
            if self.keyboard[k] {
                return true;
            }
            k += 1;
        }
        false
    }

    /// The lowest key that is down, if any.
    fn first_pressed_key(&self) -> (key: Option<u8>)
        requires
            self.wf(),
        ensures
            key matches Some(k) ==> is_first_pressed(self@.keys, k as int),
            key is None ==> !any_pressed(self@.keys),
    {
        let mut k: usize = 0;
        while k < 16
            invariant
                self.wf(),
                k <= KEY_COUNT,
                forall|j: int| 0 <= j < k ==> !#[trigger] self@.keys[j],
            decreases KEY_COUNT - k,
        {
            if self.keyboard[k] {
                return Some(k as u8);
            }
            k += 1;
        }
        None
    }

    /// `FX0A`: the key wait.
    fn wait_for_key(&mut self, x: u8)
        requires
            old(self).wf(),
            x < 0x10,
            old(self)@.pc >= 2,
        ensures
            final(self)@ == wait_for_key(old(self)@, x),
            final(self).wf(),
    {
        match self.state {
            State::Running => {
                if !self.any_key_pressed() {
                    self.state = State::Waiting;
                }
                self.pc -= 2;
            },
            State::Waiting => {
                let key = self.first_pressed_key();
                if let Some(pressed_key) = key {
                    proof {
                        let k = pressed_key as int;
                        assert(is_first_pressed(self@.keys, k));
                        assert forall|j: int| is_first_pressed(self@.keys, j) implies j == k by {
                            if j < k {
                                assert(!self@.keys[j]);
                            } else if k < j {
                                assert(!self@.keys[k]);
                            }
                        }
                        assert(any_pressed(self@.keys));
                        assert(first_pressed(self@.keys) == k);
                    }
                    self.state = State::Pressed(pressed_key);
                }
                self.pc -= 2;
            },
            State::Pressed(key) => {
                if !self.keyboard[key as usize] {
                    self.state = State::Running;
                    self.registers.write(x, key);
                } else {
                    self.pc -= 2;
                }
            },
        }
    }

    /// `FXNN`: timers, index register, key wait, memory transfers.
    fn execute_misc(&mut self, instruction: Opcode)
        requires
            old(self).wf(),
            opcode_in_range(instruction),
            instruction.0 == 0xF,
            is_defined(instruction),
            execute_ok(old(self)@, instruction),
        ensures
            final(self)@ == misc(old(self)@, instruction.1, instruction.2, instruction.3),
            final(self).wf(),
    {
        let (_, x, y, n, _, _) = instruction;
        proof {
            self.lemma_sizes();
        }
        match (y, n) {
            // FX07 -> Sets VX to delay timer
            (0x0, 0x7) => self.registers.write(x, self.delay_timer.get()),
            // FX15 -> Sets delay timer to VX
            (0x1, 0x5) => self.delay_timer.set(self.registers.read(x)),
            // FX18 -> Sets sound timer to VX
            (0x1, 0x8) => self.sound_timer.set(self.registers.read(x)),
            // FX1E -> Add VX to I (with carry flag if "overflow" over 0x1000)
            (0x1, 0xE) => {
                let vx = self.registers.read(x) as u16;
                let sum = self.i.wrapping_add(vx);
                let carry = self.i as u32 + vx as u32 > 0xFFFF;
                self.i = sum;
                self.registers.write(FLAG, if carry || sum >= 0x1000 { 1 } else { 0 });
            },
            // FX0A -> Block for key press
            (0x0, 0xA) => self.wait_for_key(x),
            // FX29 -> Sets I to font character for the value in VX
            (0x2, 0x9) => {
                let vx = self.registers.read(x);
                self.i = (vx * 5) as u16;
            },
            // FX33 -> Sets address I, I + 1 and I + 2 to the 3 decimal digits of VX
            (0x3, 0x3) => {
                let vx = self.registers.read(x);
                self.ram.write(self.i as usize, vx / 100);
                self.ram.write((self.i + 1) as usize, (vx % 100) / 10);
                self.ram.write((self.i + 2) as usize, vx % 10);
            },
            // FX55 -> Store registers 0 to X in memory
            (0x5, _) => {
                let ghost before = self@;
                let mut k: u8 = 0;
                while k <= x
                    invariant
                        self.wf(),
                        x < 0x10,
                        k <= x + 1,
                        before.wf(),
                        before.i + x < RAM_SIZE,
                        self@.i == before.i + k,
                        self@.ram == Seq::new(
                            RAM_SIZE as nat,
                            |a: int|
                                if before.i <= a < before.i + k {
                                    before.regs[a - before.i]
                                } else {
                                    before.ram[a]
                                },
                        ),
                        self@ == (Machine { ram: self@.ram, i: self@.i, ..before }),
                    decreases x + 1 - k,
                {
                    let v = self.registers.read(k);
                    self.ram.write(self.i as usize, v);
                    self.i += 1;
                    k += 1;
                    proof {
                        assert(self@.ram =~= Seq::new(
                            RAM_SIZE as nat,
                            |a: int|
                                if before.i <= a < before.i + k {
                                    before.regs[a - before.i]
                                } else {
                                    before.ram[a]
                                },
                        ));
                    }
                }
                assert(self@.ram =~= misc(before, x, y, n).ram);
            },
            // FX65 -> Load registers 0 to X from memory
            _ => {
                let ghost before = self@;
                let mut k: u8 = 0;
                while k <= x
                    invariant
                        self.wf(),
                        x < 0x10,
                        k <= x + 1,
                        before.wf(),
                        before.i + x < RAM_SIZE,
                        self@.i == before.i + k,
                        self@.regs == Seq::new(
                            REGISTER_COUNT as nat,
                            |r: int|
                                if r < k {
                                    before.ram[before.i + r]
                                } else {
                                    before.regs[r]
                                },
                        ),
                        self@ == (Machine { regs: self@.regs, i: self@.i, ..before }),
                    decreases x + 1 - k,
                {
                    let v = self.ram.read(self.i as usize);
                    self.registers.write(k, v);
                    self.i += 1;
                    k += 1;
                    proof {
                        assert(self@.regs =~= Seq::new(
                            REGISTER_COUNT as nat,
                            |r: int|
                                if r < k {
                                    before.ram[before.i + r]
                                } else {
                                    before.regs[r]
                                },
                        ));
                    }
                }
                assert(self@.regs =~= misc(before, x, y, n).regs);
            },
        }
    }
}

/// Calls `rand::random_range(0..=255)`: a byte drawn from the thread-local
/// generator of `rand`. Every `u8` is in that range, so nothing is claimed of
/// the value: any byte may come back, and two calls may differ.
#[verifier::external_body]
fn random_byte() -> u8 {
    rand::random_range(0u8..=255u8)
}

impl CPU {
    /// Runs one fetch-decode-execute cycle; a `CXNN` instruction draws its
    /// random byte from `rand`.
    pub fn one_clock_cycle(&mut self)
        requires
            old(self).wf(),
            can_cycle(old(self)@),
        ensures
            final(self).wf(),
            exists|random: u8| final(self)@ == cycle(old(self)@, random),
            uses_random(old(self)@) || final(self)@ == cycle(old(self)@, 0),
    {
        let ghost before = self@;
        let instruction = self.fetch();
        let opcode = self.decode(instruction);
        let random = if opcode.0 == 0xC {
            random_byte()
        } else {
            0
        };
        self.execute(opcode, random);
        assert(self@ == cycle(before, random));
    }

    /// Runs one cycle in which `CXNN` uses `random` as its random byte.
    pub fn one_clock_cycle_with(&mut self, random: u8)
        requires
            old(self).wf(),
            can_cycle(old(self)@),
        ensures
            final(self).wf(),
            final(self)@ == cycle(old(self)@, random),
    {
        let instruction = self.fetch();
        let opcode = self.decode(instruction);
        self.execute(opcode, random);
    }

    /// Whether the next cycle runs to its end: the instruction lies in memory,
    /// is one the machine knows, and its conditions hold (see `execute_ok`).
    pub fn can_run_cycle(&self) -> (ok: bool)
        requires
            self.wf(),
        ensures
            ok == can_cycle(self@),
    {
        if self.pc >= RAM_SIZE - 1 {
            return false;
        }
        let hi = self.ram.read(self.pc);
        let lo = self.ram.read(self.pc + 1);
        assert(((hi as u16) << 8u16) == hi as u16 * 256) by (bit_vector);
        let instruction = ((hi as u16) << 8) + (lo as u16);
        let op = self.decode(instruction);
        assert(op == current_opcode(self@));
        defined_opcode(op) && self.opcode_ok_after_fetch(op)
    }

    /// Whether `op` runs to its end once the program counter moved past it.
    fn opcode_ok_after_fetch(&self, op: Opcode) -> (ok: bool)
        requires
            self.wf(),
            opcode_in_range(op),
            self@.pc + 1 < RAM_SIZE,
        ensures
            ok == execute_ok(fetched(self@), op),
    {
        let (code, x, y, n, _, _) = op;
        let i = self.i as usize;
        let vx = self.registers.read(x);
        if code == 0x0 && n == 0xE {
            self.stack.len() > 0
        } else if code == 0xD {
            let top = (self.registers.read(y) % 32) as usize;
            let rows = if (n as usize) < 32 - top {
                n as usize
            } else {
                32 - top
            };
            i + rows <= RAM_SIZE
        } else if code == 0xE {
            (vx as usize) < KEY_COUNT
        } else if code == 0xF && y == 0x2 && n == 0x9 {
            vx <= 51
        } else if code == 0xF && y == 0x3 && n == 0x3 {
            i + 2 < RAM_SIZE
        } else if code == 0xF && (y == 0x5 || y == 0x6) && n == 0x5 {
            i + (x as usize) < RAM_SIZE
        } else {
            true
        }
    }

    /// Copies a program into memory at the program start.
    pub fn load_rom(&mut self, rom: &[u8])
        requires
            old(self).wf(),
            PROGRAM_START + rom@.len() <= RAM_SIZE,
        ensures
            final(self).wf(),
            final(self)@ == (Machine {
                ram: old(self)@.ram.take(PROGRAM_START as int) + rom@ + old(self)@.ram.skip(
                    PROGRAM_START + rom@.len(),
                ),
                ..old(self)@
            }),
    {
        self.ram.put(0x200, rom);
    }

    /// The screen.
    pub fn display(&self) -> (d: &Display)
        ensures
            forall|y: int, x: int|
                0 <= y < DISPLAY_HEIGHT && 0 <= x < DISPLAY_WIDTH ==> #[trigger] d@[y]@[x]
                    == self@.screen[y][x],
    {
        &self.display
    }

    /// The keypad.
    pub fn keyboard(&self) -> (k: &Keyboard)
        ensures
            k@ == self@.keys,
    {
        &self.keyboard
    }

    /// The delay timer.
    pub fn delay_timer(&self) -> (t: &Timer)
        ensures
            t@ == self@.delay,
    {
        &self.delay_timer
    }

    /// The sound timer.
    pub fn sound_timer(&self) -> (t: &Timer)
        ensures
            t@ == self@.sound,
    {
        &self.sound_timer
    }

    /// Records that key `key` is down (`pressed`) or up.
    pub fn set_key(&mut self, key: usize, pressed: bool)
        requires
            old(self).wf(),
            key < KEY_COUNT,
        ensures
            final(self).wf(),
            final(self)@ == (Machine { keys: old(self)@.keys.update(key as int, pressed), ..old(self)@ }),
    {
        self.keyboard[key] = pressed;
    }

    /// One tick of the 60 Hz clock: the sound timer, then the delay timer, is
    /// decremented.
    pub fn tick_timers(&mut self)
        requires
            old(self).wf(),
        ensures
            final(self).wf(),
            final(self)@ == (Machine {
                sound: decremented(old(self)@.sound),
                delay: decremented(old(self)@.delay),
                ..old(self)@
            }),
    {
        self.sound_timer.decrement();
        self.delay_timer.decrement();
    }
}

/// Whether the machine knows instruction `op`.
fn defined_opcode(op: Opcode) -> (ok: bool)
    requires
        opcode_in_range(op),
    ensures
        ok == is_defined(op),
{
    let (code, x, y, n, _, _) = op;
    match code {
        0x0 => x == 0x0 && y == 0xE && (n == 0x0 || n == 0xE),
        0x5 | 0x9 => n == 0x0,
        0x8 => n <= 0x7 || n == 0xE,
        0xE => (y == 0x9 && n == 0xE) || (y == 0xA && n == 0x1),
        0xF => match (y, n) {
            (0x0, 0x7) | (0x1, 0x5) | (0x1, 0x8) | (0x1, 0xE) | (0x0, 0xA) | (0x2, 0x9) | (
                0x3,
                0x3,
            ) | (0x5, 0x5) | (0x6, 0x5) => true,
            _ => false,
        },
        _ => true,
    }
}

} // verus!
