//! What each instruction does, stated instruction by instruction in terms of
//! the machine before and after one cycle.
use vstd::prelude::*;

use crate::cpu::semantics::{
    can_cycle, current_opcode, cycle, decode_word, is_defined, word_at, Machine,
    DISPLAY_HEIGHT, DISPLAY_WIDTH, FLAG, KEY_COUNT,
};
use crate::memory::{font, FONT_SIZE, RAM_SIZE};

verus! {

/// `after` has the length of `before` and agrees with it except perhaps at
/// indices `a` and `b`.
pub open spec fn kept_except(after: Seq<u8>, before: Seq<u8>, a: int, b: int) -> bool {
    &&& after.len() == before.len()
    &&& forall|k: int| 0 <= k < before.len() && k != a && k != b ==> #[trigger] after[k] == before[k]
}

/// The cycle at `s` runs an instruction with opcode nibble `code` and last
/// nibble `n`.
pub open spec fn runs(s: Machine, code: u8, n: u8) -> bool {
    &&& s.wf()
    &&& can_cycle(s)
    &&& current_opcode(s).0 == code
    &&& current_opcode(s).3 == n
}

/// The cycle at `s` runs `FXNN` with the given `N` in the third nibble and
/// the last.
pub open spec fn runs_f(s: Machine, y: u8, n: u8) -> bool {
    runs(s, 0xF, n) && current_opcode(s).2 == y
}

/// The parts of a decoded word are its four nibbles, `NN` its low byte and
/// `NNN` its low twelve bits.
pub proof fn lemma_decode_nibbles(w: u16)
    ensures
        decode_word(w).0 < 0x10,
        decode_word(w).1 < 0x10,
        decode_word(w).2 < 0x10,
        decode_word(w).3 < 0x10,
        decode_word(w).0 as int * 0x1000 + decode_word(w).1 as int * 0x100 + decode_word(w).2 as int
            * 0x10 + decode_word(w).3 as int == w as int,
        decode_word(w).4 as int == decode_word(w).2 as int * 0x10 + decode_word(w).3 as int,
        decode_word(w).5 as int == decode_word(w).1 as int * 0x100 + decode_word(w).4 as int,
{
    assert(w / 0x1000 < 0x10 && (w / 0x100) % 0x10 < 0x10 && (w / 0x10) % 0x10 < 0x10 && w % 0x10
        < 0x10) by (bit_vector);
    assert((w / 0x1000) * 0x1000 + ((w / 0x100) % 0x10) * 0x100 + ((w / 0x10) % 0x10) * 0x10 + w
        % 0x10 == w) by (bit_vector);
    assert(w % 0x100 == ((w / 0x10) % 0x10) * 0x10 + w % 0x10) by (bit_vector);
    assert(w % 0x1000 == ((w / 0x100) % 0x10) * 0x100 + w % 0x100) by (bit_vector);
}

/// An instruction word is stored big-endian: its high byte at `pc`, its low
/// byte at `pc + 1`.
pub proof fn lemma_word_big_endian(ram: Seq<u8>, pc: int)
    requires
        0 <= pc,
        pc + 1 < ram.len(),
    ensures
        word_at(ram, pc) as int / 0x100 == ram[pc] as int,
        word_at(ram, pc) as int % 0x100 == ram[pc + 1] as int,
{
}

/// `00E0` turns every pixel off and moves on.
pub proof fn lemma_clear_screen(s: Machine, r: u8)
    requires
        runs(s, 0x0, 0x0),
    ensures
        forall|y: int, x: int|
            0 <= y < DISPLAY_HEIGHT && 0 <= x < DISPLAY_WIDTH ==> !#[trigger] cycle(s, r).screen[y][x],
        cycle(s, r).screen.len() == DISPLAY_HEIGHT,
        cycle(s, r).pc == s.pc + 2,
        cycle(s, r).regs == s.regs,
{
}

/// `00EE` continues at the address on top of the stack and pops it.
pub proof fn lemma_return(s: Machine, r: u8)
    requires
        runs(s, 0x0, 0xE),
    ensures
        cycle(s, r).pc == s.stack[s.stack.len() - 1] as int,
        cycle(s, r).stack.len() + 1 == s.stack.len(),
        forall|k: int| 0 <= k < cycle(s, r).stack.len() ==> #[trigger] cycle(s, r).stack[k] == s.stack[k],
        cycle(s, r).regs == s.regs,
{
}

/// `1NNN` continues at `NNN`.
pub proof fn lemma_jump(s: Machine, r: u8)
    requires
        s.wf(),
        can_cycle(s),
        current_opcode(s).0 == 0x1,
    ensures
        cycle(s, r).pc == word_at(s.ram, s.pc) as int % 0x1000,
        cycle(s, r).stack == s.stack,
        cycle(s, r).regs == s.regs,
{
}

/// `2NNN` pushes the address of the next instruction and continues at `NNN`.
pub proof fn lemma_call(s: Machine, r: u8)
    requires
        s.wf(),
        can_cycle(s),
        current_opcode(s).0 == 0x2,
    ensures
        cycle(s, r).pc == word_at(s.ram, s.pc) as int % 0x1000,
        cycle(s, r).stack.len() == s.stack.len() + 1,
        cycle(s, r).stack[s.stack.len() as int] as int == s.pc + 2,
        forall|k: int| 0 <= k < s.stack.len() ==> #[trigger] cycle(s, r).stack[k] == s.stack[k],
        cycle(s, r).regs == s.regs,
{
}

/// `3XNN` skips the next instruction exactly when `VX == NN`.
pub proof fn lemma_skip_if_equal_byte(s: Machine, r: u8)
    requires
        s.wf(),
        can_cycle(s),
        current_opcode(s).0 == 0x3,
    ensures
        cycle(s, r).pc == if s.regs[current_opcode(s).1 as int] as int == word_at(s.ram, s.pc) as int
            % 0x100 {
            s.pc + 4
        } else {
            s.pc + 2
        },
        cycle(s, r).regs == s.regs,
{
}

/// `4XNN` skips the next instruction exactly when `VX != NN`.
pub proof fn lemma_skip_if_different_byte(s: Machine, r: u8)
    requires
        s.wf(),
        can_cycle(s),
        current_opcode(s).0 == 0x4,
    ensures
        cycle(s, r).pc == if s.regs[current_opcode(s).1 as int] as int != word_at(s.ram, s.pc) as int
            % 0x100 {
            s.pc + 4
        } else {
            s.pc + 2
        },
        cycle(s, r).regs == s.regs,
{
}

/// `5XY0` skips the next instruction exactly when `VX == VY`.
pub proof fn lemma_skip_if_equal_registers(s: Machine, r: u8)
    requires
        runs(s, 0x5, 0x0),
    ensures
        cycle(s, r).pc == if s.regs[current_opcode(s).1 as int] == s.regs[current_opcode(s).2 as int] {
            s.pc + 4
        } else {
            s.pc + 2
        },
        cycle(s, r).regs == s.regs,
{
}

/// `9XY0` skips the next instruction exactly when `VX != VY`.
pub proof fn lemma_skip_if_different_registers(s: Machine, r: u8)
    requires
        runs(s, 0x9, 0x0),
    ensures
        cycle(s, r).pc == if s.regs[current_opcode(s).1 as int] != s.regs[current_opcode(s).2 as int] {
            s.pc + 4
        } else {
            s.pc + 2
        },
        cycle(s, r).regs == s.regs,
{
}

/// Of `5XY0` and `9XY0` on the same registers, exactly one skips.
pub proof fn lemma_register_skips_complement(s: Machine, t: Machine, r1: u8, r2: u8)
    requires
        runs(s, 0x5, 0x0),
        runs(t, 0x9, 0x0),
        current_opcode(s).1 == current_opcode(t).1,
        current_opcode(s).2 == current_opcode(t).2,
        s.regs == t.regs,
    ensures
        (cycle(s, r1).pc == s.pc + 4) != (cycle(t, r2).pc == t.pc + 4),
{
}

/// `6XNN` sets `VX` to `NN` and leaves every other register.
pub proof fn lemma_load_byte(s: Machine, r: u8)
    requires
        s.wf(),
        can_cycle(s),
        current_opcode(s).0 == 0x6,
    ensures
        cycle(s, r).regs[current_opcode(s).1 as int] as int == word_at(s.ram, s.pc) as int % 0x100,
        kept_except(cycle(s, r).regs, s.regs, current_opcode(s).1 as int, current_opcode(s).1 as int),
        cycle(s, r).pc == s.pc + 2,
{
}

/// `7XNN` adds `NN` to `VX` modulo 256, without touching the flag or any
/// other register.
pub proof fn lemma_add_byte(s: Machine, r: u8)
    requires
        s.wf(),
        can_cycle(s),
        current_opcode(s).0 == 0x7,
    ensures
        cycle(s, r).regs[current_opcode(s).1 as int] as int == (s.regs[current_opcode(s).1 as int] as int
            + word_at(s.ram, s.pc) as int % 0x100) % 0x100,
        kept_except(cycle(s, r).regs, s.regs, current_opcode(s).1 as int, current_opcode(s).1 as int),
        cycle(s, r).pc == s.pc + 2,
{
}

/// `8XY0` copies `VY` into `VX` and leaves every other register, `VY`
/// included.
pub proof fn lemma_copy_register(s: Machine, r: u8)
    requires
        runs(s, 0x8, 0x0),
    ensures
        ({
            let (x, y) = (current_opcode(s).1 as int, current_opcode(s).2 as int);
            &&& cycle(s, r).regs[x] == s.regs[y]
            &&& kept_except(cycle(s, r).regs, s.regs, x, x)
            &&& cycle(s, r).pc == s.pc + 2
        }),
{
}

/// `8XY1`, `8XY2`, `8XY3` set `VX` to `VX | VY`, `VX & VY`, `VX ^ VY`, clear
/// the flag and leave every other register.
pub proof fn lemma_bitwise(s: Machine, r: u8)
    requires
        s.wf(),
        can_cycle(s),
        current_opcode(s).0 == 0x8,
        1 <= current_opcode(s).3 <= 3,
    ensures
        ({
            let (x, y, n) = (current_opcode(s).1, current_opcode(s).2, current_opcode(s).3);
            let (vx, vy) = (s.regs[x as int], s.regs[y as int]);
            let after = cycle(s, r).regs;
            &&& x != FLAG ==> after[x as int] == if n == 1 {
                vx | vy
            } else if n == 2 {
                vx & vy
            } else {
                vx ^ vy
            }
            &&& after[FLAG as int] == 0
            &&& kept_except(after, s.regs, x as int, FLAG as int)
            &&& cycle(s, r).pc == s.pc + 2
        }),
{
}

/// `8XY4` adds `VY` to `VX`: the flag is the carry, so that (for `X` other
/// than `F`) the new `VX` plus 256 times the flag is the true sum.
pub proof fn lemma_add_registers(s: Machine, r: u8)
    requires
        runs(s, 0x8, 0x4),
    ensures
        ({
            let (x, y) = (current_opcode(s).1 as int, current_opcode(s).2 as int);
            let (vx, vy) = (s.regs[x] as int, s.regs[y] as int);
            let after = cycle(s, r).regs;
            &&& after[FLAG as int] == if vx + vy > 0xFF { 1u8 } else { 0u8 }
            &&& x != FLAG ==> after[x] as int + 0x100 * after[FLAG as int] as int == vx + vy
            &&& kept_except(after, s.regs, x, FLAG as int)
            &&& cycle(s, r).pc == s.pc + 2
        }),
{
}

/// `8XY5` subtracts `VY` from `VX`: the flag is 1 when no borrow is needed,
/// so that (for `X` other than `F`) the new `VX` minus 256 when borrowing is
/// the true difference.
pub proof fn lemma_subtract_registers(s: Machine, r: u8)
    requires
        runs(s, 0x8, 0x5),
    ensures
        ({
            let (x, y) = (current_opcode(s).1 as int, current_opcode(s).2 as int);
            let (vx, vy) = (s.regs[x] as int, s.regs[y] as int);
            let after = cycle(s, r).regs;
            &&& after[FLAG as int] == if vx >= vy { 1u8 } else { 0u8 }
            &&& x != FLAG ==> after[x] as int - 0x100 * (1 - after[FLAG as int] as int) == vx - vy
            &&& kept_except(after, s.regs, x, FLAG as int)
            &&& cycle(s, r).pc == s.pc + 2
        }),
{
}

/// `8XY7` sets `VX` to `VY - VX`: the flag is 1 when no borrow is needed.
pub proof fn lemma_subtract_reversed(s: Machine, r: u8)
    requires
        runs(s, 0x8, 0x7),
    ensures
        ({
            let (x, y) = (current_opcode(s).1 as int, current_opcode(s).2 as int);
            let (vx, vy) = (s.regs[x] as int, s.regs[y] as int);
            let after = cycle(s, r).regs;
            &&& after[FLAG as int] == if vy >= vx { 1u8 } else { 0u8 }
            &&& x != FLAG ==> after[x] as int - 0x100 * (1 - after[FLAG as int] as int) == vy - vx
            &&& kept_except(after, s.regs, x, FLAG as int)
            &&& cycle(s, r).pc == s.pc + 2
        }),
{
}

/// `8XY6` shifts `VY` right into `VX`: the flag is the bit shifted out, so
/// that (for `X` other than `F`) twice the new `VX` plus the flag is `VY`.
pub proof fn lemma_shift_right(s: Machine, r: u8)
    requires
        runs(s, 0x8, 0x6),
    ensures
        ({
            let (x, y) = (current_opcode(s).1 as int, current_opcode(s).2 as int);
            let vy = s.regs[y] as int;
            let after = cycle(s, r).regs;
            &&& after[FLAG as int] <= 1
            &&& after[FLAG as int] as int == vy % 2
            &&& x != FLAG ==> 2 * after[x] as int + after[FLAG as int] as int == vy
            &&& kept_except(after, s.regs, x, FLAG as int)
            &&& cycle(s, r).pc == s.pc + 2
        }),
{
}

/// `8XYE` shifts `VY` left into `VX`: the flag is the bit shifted out, so
/// that (for `X` other than `F`) the new `VX` plus 256 times the flag is
/// twice `VY`.
pub proof fn lemma_shift_left(s: Machine, r: u8)
    requires
        runs(s, 0x8, 0xE),
    ensures
        ({
            let (x, y) = (current_opcode(s).1 as int, current_opcode(s).2 as int);
            let vy = s.regs[y] as int;
            let after = cycle(s, r).regs;
            &&& after[FLAG as int] <= 1
            &&& after[FLAG as int] as int == vy / 0x80
            &&& x != FLAG ==> after[x] as int + 0x100 * after[FLAG as int] as int == 2 * vy
            &&& kept_except(after, s.regs, x, FLAG as int)
            &&& cycle(s, r).pc == s.pc + 2
        }),
{
}

/// `ANNN` sets `I` to `NNN`.
pub proof fn lemma_set_index(s: Machine, r: u8)
    requires
        s.wf(),
        can_cycle(s),
        current_opcode(s).0 == 0xA,
    ensures
        cycle(s, r).i as int == word_at(s.ram, s.pc) as int % 0x1000,
        cycle(s, r).regs == s.regs,
        cycle(s, r).pc == s.pc + 2,
{
}

/// `BNNN` continues at `NNN + V0`.
pub proof fn lemma_jump_offset(s: Machine, r: u8)
    requires
        s.wf(),
        can_cycle(s),
        current_opcode(s).0 == 0xB,
    ensures
        cycle(s, r).pc == word_at(s.ram, s.pc) as int % 0x1000 + s.regs[0] as int,
        cycle(s, r).regs == s.regs,
{
}

/// `CXNN` sets `VX` to the random byte masked by `NN`: only bits of `NN` can
/// be set, and every such bit comes from the random byte.
pub proof fn lemma_random(s: Machine, r: u8)
    requires
        s.wf(),
        can_cycle(s),
        current_opcode(s).0 == 0xC,
    ensures
        ({
            let x = current_opcode(s).1 as int;
            let nn = current_opcode(s).4;
            let vx = cycle(s, r).regs[x];
            &&& vx | nn == nn
            &&& vx | r == r
            &&& vx == r & nn
            &&& kept_except(cycle(s, r).regs, s.regs, x, x)
            &&& cycle(s, r).pc == s.pc + 2
        }),
{
    let nn = current_opcode(s).4;
    let v = r & nn;
    assert((v | nn) == nn && (v | r) == r) by (bit_vector)
        requires
            v == r & nn,
    ;
}

/// `EX9E` skips the next instruction exactly when key `VX` is down; `EXA1`
/// exactly when it is up.
pub proof fn lemma_key_skips(s: Machine, r: u8)
    requires
        s.wf(),
        can_cycle(s),
        current_opcode(s).0 == 0xE,
    ensures
        ({
            let key = s.regs[current_opcode(s).1 as int] as int;
            let down = s.keys[key];
            &&& current_opcode(s).3 == 0xE ==> cycle(s, r).pc == if down { s.pc + 4 } else { s.pc + 2 }
            &&& current_opcode(s).3 == 0x1 ==> cycle(s, r).pc == if !down { s.pc + 4 } else { s.pc + 2 }
            &&& cycle(s, r).regs == s.regs
        }),
{
}

/// `FX07` copies the delay timer into `VX`; `FX15` sets the delay timer and
/// `FX18` the sound timer to `VX`.
pub proof fn lemma_timer_transfers(s: Machine, r: u8)
    requires
        s.wf(),
        can_cycle(s),
        current_opcode(s).0 == 0xF,
    ensures
        ({
            let (x, y, n) = (current_opcode(s).1 as int, current_opcode(s).2, current_opcode(s).3);
            let after = cycle(s, r);
            &&& y == 0x0 && n == 0x7 ==> after.regs[x] == s.delay && kept_except(after.regs, s.regs, x, x)
            &&& y == 0x1 && n == 0x5 ==> after.delay == s.regs[x] && after.regs == s.regs
            &&& y == 0x1 && n == 0x8 ==> after.sound == s.regs[x] && after.regs == s.regs
        }),
{
}

/// `FX1E` adds `VX` to `I` modulo 65536; the flag tells whether the true sum
/// reaches past the 4 KiB address space.
pub proof fn lemma_add_to_index(s: Machine, r: u8)
    requires
        runs_f(s, 0x1, 0xE),
    ensures
        ({
            let x = current_opcode(s).1 as int;
            let sum = s.i as int + s.regs[x] as int;
            &&& cycle(s, r).i as int == sum % 0x10000
            &&& cycle(s, r).regs[FLAG as int] == if sum >= 0x1000 { 1u8 } else { 0u8 }
            &&& kept_except(cycle(s, r).regs, s.regs, FLAG as int, FLAG as int)
        }),
{
}

/// `FX29` points `I` at the font glyph of digit `VX`: five bytes per glyph,
/// so `I` is `5 * VX`, and while memory still holds the font those five bytes
/// are the glyph of that digit.
pub proof fn lemma_font_glyph(s: Machine, r: u8)
    requires
        runs_f(s, 0x2, 0x9),
    ensures
        ({
            let d = s.regs[current_opcode(s).1 as int] as int;
            let after = cycle(s, r);
            &&& after.i as int == 5 * d
            &&& after.ram == s.ram
            &&& after.regs == s.regs
            &&& d <= 0xF && s.ram.take(FONT_SIZE as int) == font() ==> after.ram.subrange(
                after.i as int,
                after.i as int + 5,
            ) == font().subrange(5 * d, 5 * d + 5)
        }),
{
    let d = s.regs[current_opcode(s).1 as int] as int;
    let after = cycle(s, r);
    if d <= 0xF && s.ram.take(FONT_SIZE as int) == font() {
        assert forall|k: int| 0 <= k < 5 implies #[trigger] after.ram.subrange(
            after.i as int,
            after.i as int + 5,
        )[k] == font().subrange(5 * d, 5 * d + 5)[k] by {
            assert(s.ram.take(FONT_SIZE as int)[5 * d + k] == s.ram[5 * d + k]);
        }
        assert(after.ram.subrange(after.i as int, after.i as int + 5) =~= font().subrange(
            5 * d,
            5 * d + 5,
        ));
    }
}

/// `FX33` stores the decimal digits of `VX` at `I`, `I + 1`, `I + 2`,
/// hundreds first, and changes no other byte.
pub proof fn lemma_decimal_digits(s: Machine, r: u8)
    requires
        runs_f(s, 0x3, 0x3),
    ensures
        ({
            let v = s.regs[current_opcode(s).1 as int] as int;
            let i = s.i as int;
            let m = cycle(s, r).ram;
            &&& m[i] < 10 && m[i + 1] < 10 && m[i + 2] < 10
            &&& 100 * m[i] as int + 10 * m[i + 1] as int + m[i + 2] as int == v
            &&& m.len() == s.ram.len()
            &&& forall|a: int| 0 <= a < s.ram.len() && (a < i || a > i + 2) ==> #[trigger] m[a] == s.ram[a]
            &&& cycle(s, r).regs == s.regs
        }),
{
}

/// `FX55` stores `V0..=VX` at `I..=I+X`, changes no other byte and leaves `I`
/// just past them.
pub proof fn lemma_store_registers(s: Machine, r: u8)
    requires
        runs_f(s, 0x5, 0x5),
    ensures
        ({
            let x = current_opcode(s).1 as int;
            let i = s.i as int;
            let m = cycle(s, r).ram;
            &&& forall|k: int| 0 <= k <= x ==> #[trigger] m[i + k] == s.regs[k]
            &&& m.len() == s.ram.len()
            &&& forall|a: int| 0 <= a < s.ram.len() && (a < i || a > i + x) ==> #[trigger] m[a] == s.ram[a]
            &&& cycle(s, r).i as int == i + x + 1
            &&& cycle(s, r).regs == s.regs
        }),
{
}

/// `FX65` loads `V0..=VX` from `I..=I+X`, leaves the other registers and
/// leaves `I` just past them.
pub proof fn lemma_load_registers(s: Machine, r: u8)
    requires
        runs_f(s, 0x6, 0x5),
    ensures
        ({
            let x = current_opcode(s).1 as int;
            let i = s.i as int;
            let v = cycle(s, r).regs;
            &&& forall|k: int| 0 <= k <= x ==> #[trigger] v[k] == s.ram[i + k]
            &&& v.len() == s.regs.len()
            &&& forall|k: int| 0 <= k < s.regs.len() && k > x ==> #[trigger] v[k] == s.regs[k]
            &&& cycle(s, r).i as int == i + x + 1
            &&& cycle(s, r).ram == s.ram
        }),
{
}

/// The needs of the instruction at the program counter: a return needs a
/// stack entry, a draw needs its sprite rows in memory, a key test needs `VX`
/// to be one of the 16 keys, a font lookup needs `5 * VX` to fit a byte, and
/// the memory transfers need their bytes in memory.
pub open spec fn needs_met(s: Machine) -> bool {
    let (code, x, y, n) = (
        current_opcode(s).0,
        current_opcode(s).1,
        current_opcode(s).2,
        current_opcode(s).3,
    );
    let vx = s.regs[x as int] as int;
    &&& code == 0x0 && n == 0xE ==> s.stack.len() > 0
    &&& code == 0xD ==> s.i as int + n as int <= RAM_SIZE
    &&& code == 0xE ==> vx < KEY_COUNT
    &&& code == 0xF && y == 0x2 && n == 0x9 ==> vx <= 51
    &&& code == 0xF && y == 0x3 && n == 0x3 ==> s.i as int + 2 < RAM_SIZE
    &&& code == 0xF && (y == 0x5 || y == 0x6) && n == 0x5 ==> (s.i as int + x as int) < RAM_SIZE
}

/// The cycle can run whenever the instruction lies in memory, is one the
/// machine knows, and its needs (`needs_met`) hold; no other instruction has
/// a condition.
pub proof fn lemma_cycle_can_run(s: Machine)
    requires
        s.wf(),
        0 <= s.pc,
        s.pc + 1 < RAM_SIZE,
        is_defined(current_opcode(s)),
        needs_met(s),
    ensures
        can_cycle(s),
{
}

} // verus!
