//! The meaning of one instruction cycle, stated over a mathematical model of
//! the machine.
use vstd::prelude::*;

use crate::cpu::{Opcode, State};
use crate::memory::{RAM_SIZE, REGISTER_COUNT};

verus! {

/// Index of the flag register `VF`.
pub const FLAG: u8 = 0xF;

/// Address at which programs are loaded and execution starts.
pub const PROGRAM_START: usize = 0x200;

/// Screen width in pixels.
pub const DISPLAY_WIDTH: usize = 64;

/// Screen height in pixels.
pub const DISPLAY_HEIGHT: usize = 32;

/// Number of keys of the hexadecimal keypad.
pub const KEY_COUNT: usize = 16;

/// Everything an instruction can read or change.
pub struct Machine {
    pub ram: Seq<u8>,
    pub regs: Seq<u8>,
    pub pc: int,
    pub i: u16,
    pub stack: Seq<u16>,
    /// `screen[y][x]` is the pixel in row `y`, column `x`.
    pub screen: Seq<Seq<bool>>,
    /// `keys[k]` holds whether key `k` is down.
    pub keys: Seq<bool>,
    pub delay: u8,
    pub sound: u8,
    /// Progress of a pending `FX0A` (wait for a key).
    pub state: State,
}

impl Machine {
    /// Sizes of all parts, and a key remembered by `FX0A` is a key of the keypad.
    pub open spec fn wf(self) -> bool {
        &&& self.ram.len() == RAM_SIZE
        &&& self.regs.len() == REGISTER_COUNT
        &&& self.screen.len() == DISPLAY_HEIGHT
        &&& forall|y: int| 0 <= y < DISPLAY_HEIGHT ==> #[trigger] self.screen[y].len() == DISPLAY_WIDTH
        &&& self.keys.len() == KEY_COUNT
        &&& self.state matches State::Pressed(k) ==> k < KEY_COUNT
    }

    pub open spec fn reg(self, k: u8) -> u8 {
        self.regs[k as int]
    }

    pub open spec fn set_reg(self, k: u8, v: u8) -> Machine {
        Machine { regs: self.regs.update(k as int, v), ..self }
    }

    /// Skips the next instruction when `cond` holds.
    pub open spec fn skip_if(self, cond: bool) -> Machine {
        if cond {
            Machine { pc: self.pc + 2, ..self }
        } else {
            self
        }
    }
}

pub open spec fn flag_value(b: bool) -> u8 {
    if b {
        1
    } else {
        0
    }
}

/// A screen with every pixel off.
pub open spec fn blank_screen() -> Seq<Seq<bool>> {
    Seq::new(DISPLAY_HEIGHT as nat, |y: int| Seq::new(DISPLAY_WIDTH as nat, |x: int| false))
}

/// The big-endian instruction word stored at `pc`.
pub open spec fn word_at(ram: Seq<u8>, pc: int) -> u16 {
    (ram[pc] as int * 256 + ram[pc + 1] as int) as u16
}

/// Splits an instruction word into its opcode nibble, `X`, `Y`, `N`, `NN` and `NNN`.
pub open spec fn decode_word(w: u16) -> Opcode {
    (
        (w / 0x1000) as u8,
        ((w / 0x100) % 0x10) as u8,
        ((w / 0x10) % 0x10) as u8,
        (w % 0x10) as u8,
        (w % 0x100) as u8,
        w % 0x1000,
    )
}

/// The instructions that the machine carries out; every other word stops it.
pub open spec fn is_defined(op: Opcode) -> bool {
    let (code, x, y, n) = (op.0, op.1, op.2, op.3);
    if code == 0x0 {
        x == 0x0 && y == 0xE && (n == 0x0 || n == 0xE)
    } else if code == 0x5 || code == 0x9 {
        n == 0x0
    } else if code == 0x8 {
        n <= 0x7 || n == 0xE
    } else if code == 0xE {
        (y == 0x9 && n == 0xE) || (y == 0xA && n == 0x1)
    } else if code == 0xF {
        ||| y == 0x0 && n == 0x7
        ||| y == 0x1 && n == 0x5
        ||| y == 0x1 && n == 0x8
        ||| y == 0x1 && n == 0xE
        ||| y == 0x0 && n == 0xA
        ||| y == 0x2 && n == 0x9
        ||| y == 0x3 && n == 0x3
        ||| y == 0x5 && n == 0x5
        ||| y == 0x6 && n == 0x5
    } else {
        code <= 0xF
    }
}

/// Number of sprite rows that `DXYN` reads: it stops at the bottom edge.
pub open spec fn rows_drawn(s: Machine, y: u8, n: u8) -> int {
    let top = s.reg(y) as int % DISPLAY_HEIGHT as int;
    if n < DISPLAY_HEIGHT - top {
        n as int
    } else {
        DISPLAY_HEIGHT - top
    }
}

/// The conditions under which a defined instruction runs to its end: no
/// return with an empty stack, no memory access past the end, no key outside
/// the keypad, no overflow of the font address.
pub open spec fn execute_ok(s: Machine, op: Opcode) -> bool {
    let (code, x, y, n) = (op.0, op.1, op.2, op.3);
    &&& (code == 0x0 && n == 0xE ==> s.stack.len() > 0)
    &&& (code == 0xD ==> s.i + rows_drawn(s, y, n) <= RAM_SIZE)
    &&& (code == 0xE ==> s.reg(x) < KEY_COUNT)
    &&& (code == 0xF && y == 0x0 && n == 0xA ==> s.pc >= 2)
    &&& (code == 0xF && y == 0x2 && n == 0x9 ==> s.reg(x) * 5 <= 0xFF)
    &&& (code == 0xF && y == 0x3 && n == 0x3 ==> s.i + 2 < RAM_SIZE)
    &&& (code == 0xF && (y == 0x5 || y == 0x6) && n == 0x5 ==> s.i + x < RAM_SIZE)
}

/// The machine after fetching: the program counter moved past the instruction.
pub open spec fn fetched(s: Machine) -> Machine {
    Machine { pc: s.pc + 2, ..s }
}

/// The instruction at the program counter.
pub open spec fn current_opcode(s: Machine) -> Opcode {
    decode_word(word_at(s.ram, s.pc))
}

/// One cycle can run to its end from `s`.
pub open spec fn can_cycle(s: Machine) -> bool {
    &&& 0 <= s.pc
    &&& s.pc + 1 < RAM_SIZE
    &&& is_defined(current_opcode(s))
    &&& execute_ok(fetched(s), current_opcode(s))
}

/// The cycle at `s` draws a random number (`CXNN`).
pub open spec fn uses_random(s: Machine) -> bool {
    current_opcode(s).0 == 0xC
}

/// One fetch-decode-execute cycle; `random` is the byte `CXNN` draws.
pub open spec fn cycle(s: Machine, random: u8) -> Machine {
    execute(fetched(s), current_opcode(s), random)
}

/// Carries out `op` on a machine whose program counter already points past it.
pub open spec fn execute(s: Machine, op: Opcode, random: u8) -> Machine {
    let (code, x, y, n, nn, nnn) = (op.0, op.1, op.2, op.3, op.4, op.5);
    let vx = s.reg(x);
    let vy = s.reg(y);
    if code == 0x0 {
        if n == 0x0 {
            // 00E0: clear the screen
            Machine { screen: blank_screen(), ..s }
        } else {
            // 00EE: return from a subroutine
            Machine { pc: s.stack.last() as int, stack: s.stack.drop_last(), ..s }
        }
    } else if code == 0x1 {
        Machine { pc: nnn as int, ..s }
    } else if code == 0x2 {
        Machine { stack: s.stack.push(s.pc as u16), pc: nnn as int, ..s }
    } else if code == 0x3 {
        s.skip_if(vx == nn)
    } else if code == 0x4 {
        s.skip_if(vx != nn)
    } else if code == 0x5 {
        s.skip_if(vx == vy)
    } else if code == 0x6 {
        s.set_reg(x, nn)
    } else if code == 0x7 {
        s.set_reg(x, ((vx + nn) % 0x100) as u8)
    } else if code == 0x8 {
        alu(s, x, y, n)
    } else if code == 0x9 {
        s.skip_if(vx != vy)
    } else if code == 0xA {
        Machine { i: nnn, ..s }
    } else if code == 0xB {
        Machine { pc: nnn + s.reg(0), ..s }
    } else if code == 0xC {
        s.set_reg(x, random & nn)
    } else if code == 0xD {
        draw(s, x, y, n)
    } else if code == 0xE {
        if y == 0x9 {
            s.skip_if(s.keys[vx as int])
        } else {
            s.skip_if(!s.keys[vx as int])
        }
    } else {
        misc(s, x, y, n)
    }
}

/// `8XYN`: register arithmetic; `VF` is written last.
pub open spec fn alu(s: Machine, x: u8, y: u8, n: u8) -> Machine {
    let vx = s.reg(x);
    let vy = s.reg(y);
    if n == 0x0 {
        s.set_reg(x, vy)
    } else if n == 0x1 {
        s.set_reg(x, vx | vy).set_reg(FLAG, 0)
    } else if n == 0x2 {
        s.set_reg(x, vx & vy).set_reg(FLAG, 0)
    } else if n == 0x3 {
        s.set_reg(x, vx ^ vy).set_reg(FLAG, 0)
    } else if n == 0x4 {
        s.set_reg(x, ((vx + vy) % 0x100) as u8).set_reg(FLAG, flag_value(vx + vy > 0xFF))
    } else if n == 0x5 {
        s.set_reg(x, ((vx - vy) % 0x100) as u8).set_reg(FLAG, flag_value(vx >= vy))
    } else if n == 0x6 {
        s.set_reg(x, vy / 2).set_reg(FLAG, vy % 2)
    } else if n == 0x7 {
        s.set_reg(x, ((vy - vx) % 0x100) as u8).set_reg(FLAG, flag_value(vy >= vx))
    } else {
        s.set_reg(x, ((vy * 2) % 0x100) as u8).set_reg(FLAG, vy / 0x80)
    }
}

/// Bit `7 - b` of a sprite byte: pixel `b` of its row, leftmost first.
pub open spec fn sprite_pixel(sprite: u8, b: int) -> bool {
    (sprite >> ((7 - b) as u8)) & 1u8 == 1u8
}

/// Flips one pixel; `VF` becomes 1 when the pixel was on.
pub open spec fn plot(s: Machine, y: int, x: int) -> Machine {
    let was_on = s.screen[y][x];
    Machine {
        regs: if was_on {
            s.regs.update(FLAG as int, 1)
        } else {
            s.regs
        },
        screen: s.screen.update(y, s.screen[y].update(x, !was_on)),
        ..s
    }
}

/// Pixels `b..8` of one sprite row, from column `x` on, up to the right edge.
pub open spec fn draw_row(s: Machine, sprite: u8, y: int, x: int, b: int) -> Machine
    decreases 8 - b,
{
    if b < 8 && x < DISPLAY_WIDTH {
        let s2 = if sprite_pixel(sprite, b) {
            plot(s, y, x)
        } else {
            s
        };
        draw_row(s2, sprite, y, x + 1, b + 1)
    } else {
        s
    }
}

/// Sprite rows `row..n`, the first of them at screen row `y`, up to the bottom
/// edge; each row starts at column `VX % 64`, `VX` read anew.
pub open spec fn draw_rows(s: Machine, x: u8, n: u8, row: int, y: int) -> Machine
    decreases n - row,
{
    if row < n && y < DISPLAY_HEIGHT {
        let sprite = s.ram[s.i + row];
        let s2 = draw_row(s, sprite, y, s.reg(x) as int % DISPLAY_WIDTH as int, 0);
        draw_rows(s2, x, n, row + 1, y + 1)
    } else {
        s
    }
}

/// `DXYN`: draws the `N`-row sprite at `I` at (`VX % 64`, `VY % 32`), clipped
/// at the edges; `VF` tells whether a lit pixel was turned off.
pub open spec fn draw(s: Machine, x: u8, y: u8, n: u8) -> Machine {
    let top = s.reg(y) as int % DISPLAY_HEIGHT as int;
    draw_rows(s.set_reg(FLAG, 0), x, n, 0, top)
}

/// Some key is down.
pub open spec fn any_pressed(keys: Seq<bool>) -> bool {
    exists|k: int| 0 <= k < KEY_COUNT && #[trigger] keys[k]
}

/// `k` is the lowest key that is down.
pub open spec fn is_first_pressed(keys: Seq<bool>, k: int) -> bool {
    &&& 0 <= k < KEY_COUNT
    &&& keys[k]
    &&& forall|j: int| 0 <= j < k ==> !#[trigger] keys[j]
}

/// The lowest key that is down.
pub open spec fn first_pressed(keys: Seq<bool>) -> int {
    choose|k: int| is_first_pressed(keys, k)
}

/// `FX0A`: waits until no key is down, then until a key is pressed, then until
/// it is released, and stores that key in `VX`. While it waits, the program
/// counter stays on the instruction.
pub open spec fn wait_for_key(s: Machine, x: u8) -> Machine {
    match s.state {
        State::Running => Machine {
            state: if any_pressed(s.keys) {
                State::Running
            } else {
                State::Waiting
            },
            pc: s.pc - 2,
            ..s
        },
        State::Waiting => Machine {
            state: if any_pressed(s.keys) {
                State::Pressed(first_pressed(s.keys) as u8)
            } else {
                State::Waiting
            },
            pc: s.pc - 2,
            ..s
        },
        State::Pressed(k) => if !s.keys[k as int] {
            Machine { state: State::Running, ..s.set_reg(x, k) }
        } else {
            Machine { pc: s.pc - 2, ..s }
        },
    }
}

/// `FXNN`: timers, the index register, key wait and register/memory transfer.
pub open spec fn misc(s: Machine, x: u8, y: u8, n: u8) -> Machine {
    let vx = s.reg(x);
    if y == 0x0 && n == 0x7 {
        s.set_reg(x, s.delay)
    } else if y == 0x1 && n == 0x5 {
        Machine { delay: vx, ..s }
    } else if y == 0x1 && n == 0x8 {
        Machine { sound: vx, ..s }
    } else if y == 0x1 && n == 0xE {
        let sum = ((s.i + vx) % 0x10000) as u16;
        Machine { i: sum, ..s }.set_reg(FLAG, flag_value(s.i + vx > 0xFFFF || sum >= 0x1000))
    } else if y == 0x0 && n == 0xA {
        wait_for_key(s, x)
    } else if y == 0x2 && n == 0x9 {
        Machine { i: (vx * 5) as u16, ..s }
    } else if y == 0x3 && n == 0x3 {
        Machine {
            ram: s.ram.update(s.i as int, vx / 100).update(s.i + 1, (vx % 100) / 10).update(
                s.i + 2,
                vx % 10,
            ),
            ..s
        }
    } else if y == 0x5 {
        // FX55: store V0..=VX at I..=I+X; I ends past them
        Machine {
            ram: Seq::new(
                s.ram.len(),
                |a: int|
                    if s.i <= a <= s.i + x {
                        s.regs[a - s.i]
                    } else {
                        s.ram[a]
                    },
            ),
            i: (s.i + x + 1) as u16,
            ..s
        }
    } else {
        // FX65: load V0..=VX from I..=I+X; I ends past them
        Machine {
            regs: Seq::new(
                s.regs.len(),
                |k: int|
                    if k <= x {
                        s.ram[s.i + k]
                    } else {
                        s.regs[k]
                    },
            ),
            i: (s.i + x + 1) as u16,
            ..s
        }
    }
}

} // verus!
