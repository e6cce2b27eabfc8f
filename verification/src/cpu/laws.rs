//! Properties of the instruction cycle that span instructions or describe an
//! instruction as a whole.
use vstd::prelude::*;

use crate::cpu::semantics::{
    any_pressed, can_cycle, current_opcode, cycle, draw, draw_row, draw_rows, fetched,
    first_pressed, flag_value, is_first_pressed, misc, plot, sprite_pixel, uses_random, Machine,
    DISPLAY_HEIGHT, DISPLAY_WIDTH, FLAG, KEY_COUNT,
};
use crate::cpu::{decremented, Opcode, State};

verus! {

/// Column `xx` shows a set pixel of a sprite row whose pixel `b` on lies from
/// column `left + b` on (the row is clipped at the right edge).
pub open spec fn hit_from(sprite: u8, left: int, b: int, xx: int) -> bool {
    &&& left + b <= xx < DISPLAY_WIDTH
    &&& xx - left < 8
    &&& sprite_pixel(sprite, xx - left)
}

/// Some pixel that the sprite row flips was on in `s`.
pub open spec fn row_collides(s: Machine, sprite: u8, y: int, left: int, b: int) -> bool {
    exists|xx: int| #[trigger] hit_from(sprite, left, b, xx) && s.screen[y][xx]
}

/// `DXYN` flips pixel (`xx`, `yy`): the sprite row that lands on row `yy`
/// (starting at `top = VY % 32`) has a set pixel at column `xx` (starting at
/// `VX % 64`), with rows before `row` left out.
pub open spec fn sprite_covers(s: Machine, x: u8, n: u8, top: int, row: int, yy: int, xx: int) -> bool {
    &&& top + row <= yy < DISPLAY_HEIGHT
    &&& yy - top < n
    &&& hit_from(s.ram[s.i + (yy - top)], s.reg(x) as int % DISPLAY_WIDTH as int, 0, xx)
}

/// Some pixel that the sprite flips was on in `s`.
pub open spec fn sprite_collides(s: Machine, x: u8, n: u8, top: int, row: int) -> bool {
    exists|yy: int, xx: int| #[trigger] sprite_covers(s, x, n, top, row, yy, xx) && s.screen[yy][xx]
}

/// `r` differs from `s` at most in pixels and in `VF`.
pub open spec fn same_but_pixels(r: Machine, s: Machine) -> bool {
    &&& r.ram == s.ram
    &&& r.pc == s.pc
    &&& r.i == s.i
    &&& r.stack == s.stack
    &&& r.keys == s.keys
    &&& r.delay == s.delay
    &&& r.sound == s.sound
    &&& r.state == s.state
    &&& r.regs.len() == s.regs.len()
    &&& forall|k: int| 0 <= k < s.regs.len() && k != FLAG ==> #[trigger] r.regs[k] == s.regs[k]
}

proof fn lemma_plot(s: Machine, y: int, x: int)
    requires
        s.wf(),
        0 <= y < DISPLAY_HEIGHT,
        0 <= x < DISPLAY_WIDTH,
    ensures
        plot(s, y, x).wf(),
        same_but_pixels(plot(s, y, x), s),
        forall|yy: int, xx: int|
            0 <= yy < DISPLAY_HEIGHT && 0 <= xx < DISPLAY_WIDTH ==> #[trigger] plot(
                s,
                y,
                x,
            ).screen[yy][xx] == (s.screen[yy][xx] != (yy == y && xx == x)),
        plot(s, y, x).regs[FLAG as int] == if s.screen[y][x] {
            1
        } else {
            s.regs[FLAG as int]
        },
{
    let r = plot(s, y, x);
    assert forall|yy: int| 0 <= yy < DISPLAY_HEIGHT implies #[trigger] r.screen[yy].len()
        == DISPLAY_WIDTH by {
        if yy != y {
            assert(r.screen[yy] == s.screen[yy]);
        }
    }
}

proof fn lemma_draw_row(s: Machine, sprite: u8, y: int, left: int, b: int)
    requires
        s.wf(),
        0 <= y < DISPLAY_HEIGHT,
        0 <= left,
        0 <= b <= 8,
    ensures
        draw_row(s, sprite, y, left + b, b).wf(),
        same_but_pixels(draw_row(s, sprite, y, left + b, b), s),
        forall|yy: int, xx: int|
            0 <= yy < DISPLAY_HEIGHT && 0 <= xx < DISPLAY_WIDTH ==> #[trigger] draw_row(
                s,
                sprite,
                y,
                left + b,
                b,
            ).screen[yy][xx] == (s.screen[yy][xx] != (yy == y && hit_from(sprite, left, b, xx))),
        draw_row(s, sprite, y, left + b, b).regs[FLAG as int] == if row_collides(
            s,
            sprite,
            y,
            left,
            b,
        ) {
            1
        } else {
            s.regs[FLAG as int]
        },
    decreases 8 - b,
{
    let x0 = left + b;
    if b < 8 && x0 < DISPLAY_WIDTH {
        let s2 = if sprite_pixel(sprite, b) {
            plot(s, y, x0)
        } else {
            s
        };
        lemma_plot(s, y, x0);
        lemma_draw_row(s2, sprite, y, left, b + 1);
        let r = draw_row(s, sprite, y, x0, b);
        assert(r == draw_row(s2, sprite, y, left + (b + 1), b + 1));
        assert(hit_from(sprite, left, b, x0) == sprite_pixel(sprite, b));
        assert forall|xx: int| #[trigger] hit_from(sprite, left, b, xx) implies xx == x0
            || hit_from(sprite, left, b + 1, xx) by {}
        assert forall|yy: int, xx: int|
            0 <= yy < DISPLAY_HEIGHT && 0 <= xx < DISPLAY_WIDTH implies #[trigger] r.screen[yy][xx]
            == (s.screen[yy][xx] != (yy == y && hit_from(sprite, left, b, xx))) by {
            assert(r.screen[yy][xx] == (s2.screen[yy][xx] != (yy == y && hit_from(
                sprite,
                left,
                b + 1,
                xx,
            ))));
        }
        // the flag
        if row_collides(s, sprite, y, left, b) {
            let xx = choose|xx: int| #[trigger] hit_from(sprite, left, b, xx) && s.screen[y][xx];
            if xx != x0 {
                assert(s2.screen[y][xx] == s.screen[y][xx]);
                assert(hit_from(sprite, left, b + 1, xx) && s2.screen[y][xx]);
                assert(row_collides(s2, sprite, y, left, b + 1));
            }
        } else {
            if row_collides(s2, sprite, y, left, b + 1) {
                let xx = choose|xx: int|
                    #[trigger] hit_from(sprite, left, b + 1, xx) && s2.screen[y][xx];
                assert(s2.screen[y][xx] == s.screen[y][xx]);
                assert(hit_from(sprite, left, b, xx));
            }
        }
    } else {
        assert forall|xx: int| !#[trigger] hit_from(sprite, left, b, xx) by {}
    }
}

proof fn lemma_draw_rows(s: Machine, x: u8, n: u8, top: int, row: int)
    requires
        s.wf(),
        x < 0x10,
        x != FLAG,
        0 <= top < DISPLAY_HEIGHT,
        0 <= row,
    ensures
        draw_rows(s, x, n, row, top + row).wf(),
        same_but_pixels(draw_rows(s, x, n, row, top + row), s),
        forall|yy: int, xx: int|
            0 <= yy < DISPLAY_HEIGHT && 0 <= xx < DISPLAY_WIDTH ==> #[trigger] draw_rows(
                s,
                x,
                n,
                row,
                top + row,
            ).screen[yy][xx] == (s.screen[yy][xx] != sprite_covers(s, x, n, top, row, yy, xx)),
        draw_rows(s, x, n, row, top + row).regs[FLAG as int] == if sprite_collides(
            s,
            x,
            n,
            top,
            row,
        ) {
            1
        } else {
            s.regs[FLAG as int]
        },
    decreases n - row,
{
    let y = top + row;
    let left = s.reg(x) as int % DISPLAY_WIDTH as int;
    if row < n && y < DISPLAY_HEIGHT {
        let sprite = s.ram[s.i + row];
        let s2 = draw_row(s, sprite, y, left, 0);
        lemma_draw_row(s, sprite, y, left, 0);
        assert(s2.reg(x) == s.reg(x));
        lemma_draw_rows(s2, x, n, top, row + 1);
        let r = draw_rows(s, x, n, row, y);
        assert(r == draw_rows(s2, x, n, row + 1, top + (row + 1)));
        assert forall|yy: int, xx: int|
            0 <= yy < DISPLAY_HEIGHT && 0 <= xx < DISPLAY_WIDTH implies #[trigger] r.screen[yy][xx]
            == (s.screen[yy][xx] != sprite_covers(s, x, n, top, row, yy, xx)) by {
            assert(sprite_covers(s, x, n, top, row, yy, xx) == ((yy == y && hit_from(
                sprite,
                left,
                0,
                xx,
            )) || sprite_covers(s2, x, n, top, row + 1, yy, xx)));
        }
        // the flag
        if sprite_collides(s, x, n, top, row) {
            let (yy, xx) = choose|yy: int, xx: int|
                #[trigger] sprite_covers(s, x, n, top, row, yy, xx) && s.screen[yy][xx];
            if yy == y {
                assert(hit_from(sprite, left, 0, xx) && s.screen[y][xx]);
                assert(row_collides(s, sprite, y, left, 0));
            } else {
                assert(s2.screen[yy][xx] == s.screen[yy][xx]);
                assert(sprite_covers(s2, x, n, top, row + 1, yy, xx));
                assert(sprite_collides(s2, x, n, top, row + 1));
            }
        } else {
            if row_collides(s, sprite, y, left, 0) {
                let xx = choose|xx: int| #[trigger] hit_from(sprite, left, 0, xx) && s.screen[y][xx];
                assert(sprite_covers(s, x, n, top, row, y, xx));
            }
            if sprite_collides(s2, x, n, top, row + 1) {
                let (yy, xx) = choose|yy: int, xx: int|
                    #[trigger] sprite_covers(s2, x, n, top, row + 1, yy, xx) && s2.screen[yy][xx];
                assert(s2.screen[yy][xx] == s.screen[yy][xx]);
                assert(sprite_covers(s, x, n, top, row, yy, xx));
            }
        }
    } else {
        assert forall|yy: int, xx: int| !#[trigger] sprite_covers(s, x, n, top, row, yy, xx) by {}
    }
}

/// `DXYN` as a whole, when `X` is not `VF`: every pixel under a set bit of the
/// sprite flips and no other pixel changes, `VF` becomes 1 exactly when one of
/// the flipped pixels was on (else 0), and nothing but pixels and `VF` changes.
pub proof fn lemma_draw_flips_sprite_pixels(s: Machine, x: u8, y: u8, n: u8)
    requires
        s.wf(),
        x < 0x10,
        y < 0x10,
        x != FLAG,
    ensures
        draw(s, x, y, n).wf(),
        same_but_pixels(draw(s, x, y, n), s),
        forall|yy: int, xx: int|
            0 <= yy < DISPLAY_HEIGHT && 0 <= xx < DISPLAY_WIDTH ==> #[trigger] draw(
                s,
                x,
                y,
                n,
            ).screen[yy][xx] == (s.screen[yy][xx] != sprite_covers(
                s,
                x,
                n,
                s.reg(y) as int % DISPLAY_HEIGHT as int,
                0,
                yy,
                xx,
            )),
        draw(s, x, y, n).regs[FLAG as int] == flag_value(
            sprite_collides(s, x, n, s.reg(y) as int % DISPLAY_HEIGHT as int, 0),
        ),
{
    let top = s.reg(y) as int % DISPLAY_HEIGHT as int;
    let s1 = s.set_reg(FLAG, 0);
    assert(s1.reg(x) == s.reg(x));
    lemma_draw_rows(s1, x, n, top, 0);
    assert(draw(s, x, y, n) == draw_rows(s1, x, n, 0, top + 0));
    assert forall|yy: int, xx: int| #[trigger] sprite_covers(s1, x, n, top, 0, yy, xx)
        == sprite_covers(s, x, n, top, 0, yy, xx) by {}
    if sprite_collides(s1, x, n, top, 0) {
        let (yy, xx) = choose|yy: int, xx: int|
            #[trigger] sprite_covers(s1, x, n, top, 0, yy, xx) && s1.screen[yy][xx];
        assert(sprite_covers(s, x, n, top, 0, yy, xx) && s.screen[yy][xx]);
    }
    if sprite_collides(s, x, n, top, 0) {
        let (yy, xx) = choose|yy: int, xx: int|
            #[trigger] sprite_covers(s, x, n, top, 0, yy, xx) && s.screen[yy][xx];
        assert(sprite_covers(s1, x, n, top, 0, yy, xx) && s1.screen[yy][xx]);
    }
}

/// Drawing the same sprite twice at the same place (with `X` and `Y` other
/// than `VF`) leaves the screen as it was.
pub proof fn lemma_draw_twice_restores_screen(s: Machine, x: u8, y: u8, n: u8)
    requires
        s.wf(),
        x < 0x10,
        y < 0x10,
        x != FLAG,
        y != FLAG,
    ensures
        draw(draw(s, x, y, n), x, y, n).screen == s.screen,
{
    let r1 = draw(s, x, y, n);
    lemma_draw_flips_sprite_pixels(s, x, y, n);
    lemma_draw_flips_sprite_pixels(r1, x, y, n);
    let r2 = draw(r1, x, y, n);
    assert(r1.reg(x) == s.reg(x) && r1.reg(y) == s.reg(y));
    let top = s.reg(y) as int % DISPLAY_HEIGHT as int;
    assert forall|yy: int| 0 <= yy < DISPLAY_HEIGHT implies #[trigger] r2.screen[yy]
        =~= s.screen[yy] by {
        assert forall|xx: int| 0 <= xx < DISPLAY_WIDTH implies #[trigger] r2.screen[yy][xx]
            == s.screen[yy][xx] by {
            assert(sprite_covers(r1, x, n, top, 0, yy, xx) == sprite_covers(
                s,
                x,
                n,
                top,
                0,
                yy,
                xx,
            ));
        }
    }
    assert(r2.screen =~= s.screen);
}

/// A sprite byte is read most significant bit first: pixel `b` of a row is
/// bit `7 - b`, i.e. the byte divided by `2^(7 - b)` is odd.
pub proof fn lemma_sprite_pixel_bits(sprite: u8)
    ensures
        sprite_pixel(sprite, 0) == ((sprite / 0x80) % 2 == 1),
        sprite_pixel(sprite, 1) == ((sprite / 0x40) % 2 == 1),
        sprite_pixel(sprite, 2) == ((sprite / 0x20) % 2 == 1),
        sprite_pixel(sprite, 3) == ((sprite / 0x10) % 2 == 1),
        sprite_pixel(sprite, 4) == ((sprite / 0x08) % 2 == 1),
        sprite_pixel(sprite, 5) == ((sprite / 0x04) % 2 == 1),
        sprite_pixel(sprite, 6) == ((sprite / 0x02) % 2 == 1),
        sprite_pixel(sprite, 7) == (sprite % 2 == 1),
{
    let s = sprite;
    assert(((s >> 7u8) & 1u8 == 1u8) == ((s / 0x80) % 2 == 1)) by (bit_vector);
    assert(((s >> 6u8) & 1u8 == 1u8) == ((s / 0x40) % 2 == 1)) by (bit_vector);
    assert(((s >> 5u8) & 1u8 == 1u8) == ((s / 0x20) % 2 == 1)) by (bit_vector);
    assert(((s >> 4u8) & 1u8 == 1u8) == ((s / 0x10) % 2 == 1)) by (bit_vector);
    assert(((s >> 3u8) & 1u8 == 1u8) == ((s / 0x08) % 2 == 1)) by (bit_vector);
    assert(((s >> 2u8) & 1u8 == 1u8) == ((s / 0x04) % 2 == 1)) by (bit_vector);
    assert(((s >> 1u8) & 1u8 == 1u8) == ((s / 0x02) % 2 == 1)) by (bit_vector);
    assert(((s >> 0u8) & 1u8 == 1u8) == (s % 2 == 1)) by (bit_vector);
}

/// A timer counts down by one: one more than the decremented value is the
/// old value, modulo 256.
pub proof fn lemma_decrement_counts_down(v: u8)
    ensures
        (decremented(v) as int + 1) % 0x100 == v as int,
{
}

/// The random byte matters only to `CXNN`: any other cycle has one outcome.
pub proof fn lemma_cycle_ignores_random(s: Machine, r1: u8, r2: u8)
    requires
        !uses_random(s),
    ensures
        cycle(s, r1) == cycle(s, r2),
{
}

/// A return (`00EE`) taken with the stack that a call (`2NNN`) left goes back
/// to the instruction after the call, with the stack as before the call.
pub proof fn lemma_return_undoes_call(s: Machine, t: Machine, r1: u8, r2: u8)
    requires
        can_cycle(s),
        current_opcode(s).0 == 0x2,
        can_cycle(t),
        current_opcode(t).0 == 0x0,
        current_opcode(t).3 == 0xE,
        t.stack == cycle(s, r1).stack,
    ensures
        cycle(t, r2).pc == s.pc + 2,
        cycle(t, r2).stack == s.stack,
{
    assert(cycle(s, r1).stack == s.stack.push((s.pc + 2) as u16));
    assert(t.stack.drop_last() =~= s.stack);
}

proof fn lemma_store_then_load(a: Machine, b: Machine, x: u8)
    requires
        a.wf(),
        b.wf(),
        x < 0x10,
        a.i + x < crate::memory::RAM_SIZE,
        b.ram == misc(a, x, 0x5, 0x5).ram,
        b.i == a.i,
    ensures
        forall|k: int| 0 <= k <= x ==> #[trigger] misc(b, x, 0x6, 0x5).regs[k] == a.regs[k],
        misc(b, x, 0x6, 0x5).i == misc(a, x, 0x5, 0x5).i,
{
    assert forall|k: int| 0 <= k <= x implies #[trigger] misc(b, x, 0x6, 0x5).regs[k] == a.regs[k] by {
        assert(b.ram[b.i + k] == a.regs[k]);
    }
}

/// Loading registers (`FX65`) from where they were stored (`FX55`, same `X`
/// and `I`) gives back the stored registers `V0..=VX`, and both leave `I` at
/// the same place.
pub proof fn lemma_load_after_store(s: Machine, t: Machine, r1: u8, r2: u8)
    requires
        s.wf(),
        t.wf(),
        can_cycle(s),
        can_cycle(t),
        current_opcode(s).0 == 0xF,
        current_opcode(s).2 == 0x5,
        current_opcode(s).3 == 0x5,
        current_opcode(t).0 == 0xF,
        current_opcode(t).1 == current_opcode(s).1,
        current_opcode(t).2 == 0x6,
        current_opcode(t).3 == 0x5,
        t.ram == cycle(s, r1).ram,
        t.i == s.i,
    ensures
        forall|k: int| 0 <= k <= current_opcode(s).1 ==> #[trigger] cycle(t, r2).regs[k] == s.regs[k],
        cycle(t, r2).i == cycle(s, r1).i,
{
    let x = current_opcode(s).1;
    assert(cycle(s, r1) == misc(fetched(s), x, 0x5, 0x5));
    assert(cycle(t, r2) == misc(fetched(t), x, 0x6, 0x5));
    lemma_store_then_load(fetched(s), fetched(t), x);
}

proof fn lemma_draw_rows_frame(s: Machine, x: u8, n: u8, row: int, y: int)
    requires
        s.wf(),
        x < 0x10,
        0 <= y,
    ensures
        draw_rows(s, x, n, row, y).wf(),
        same_but_pixels(draw_rows(s, x, n, row, y), s),
    decreases n - row,
{
    if row < n && y < DISPLAY_HEIGHT {
        let left = s.reg(x) as int % DISPLAY_WIDTH as int;
        let sprite = s.ram[s.i + row];
        lemma_draw_row(s, sprite, y, left, 0);
        let s2 = draw_row(s, sprite, y, left, 0);
        lemma_draw_rows_frame(s2, x, n, row + 1, y + 1);
    }
}

/// `DXYN`, whatever `X` and `Y`, changes nothing but pixels and `VF`.
pub proof fn lemma_draw_frame(s: Machine, x: u8, y: u8, n: u8)
    requires
        s.wf(),
        x < 0x10,
        y < 0x10,
    ensures
        draw(s, x, y, n).wf(),
        same_but_pixels(draw(s, x, y, n), s),
{
    let s1 = s.set_reg(FLAG, 0);
    lemma_draw_rows_frame(s1, x, n, 0, s.reg(y) as int % DISPLAY_HEIGHT as int);
}

/// What one cycle may change: never the keypad; the sound timer only by
/// `FX18`, the delay timer only by `FX15`; the screen only by `00E0` and
/// `DXYN`; memory only by `FX33` and `FX55`; the stack only by `2NNN` and
/// `00EE`.
pub proof fn lemma_cycle_frame(s: Machine, r: u8)
    requires
        s.wf(),
        can_cycle(s),
    ensures
        cycle(s, r).keys == s.keys,
        !(current_opcode(s).0 == 0xF && current_opcode(s).2 == 0x1 && current_opcode(s).3 == 0x8)
            ==> cycle(s, r).sound == s.sound,
        !(current_opcode(s).0 == 0xF && current_opcode(s).2 == 0x1 && current_opcode(s).3 == 0x5)
            ==> cycle(s, r).delay == s.delay,
        !((current_opcode(s).0 == 0x0 && current_opcode(s).3 == 0x0) || current_opcode(s).0 == 0xD)
            ==> cycle(s, r).screen == s.screen,
        !(current_opcode(s).0 == 0xF && ((current_opcode(s).2 == 0x3 && current_opcode(s).3 == 0x3)
            || (current_opcode(s).2 == 0x5 && current_opcode(s).3 == 0x5))) ==> cycle(s, r).ram
            == s.ram,
        !(current_opcode(s).0 == 0x2 || (current_opcode(s).0 == 0x0 && current_opcode(s).3 == 0xE))
            ==> cycle(s, r).stack == s.stack,
{
    let op = current_opcode(s);
    if op.0 == 0xD {
        lemma_draw_frame(fetched(s), op.1, op.2, op.3);
    }
}

/// The instruction is `FX0A`, the key wait.
pub open spec fn is_key_wait(op: Opcode) -> bool {
    op.0 == 0xF && op.2 == 0x0 && op.3 == 0xA
}

/// One cycle on `FX0A`: the program counter stays on the instruction and the
/// registers keep their values, except in the cycle that finds the remembered
/// key up again; that cycle stores the key in `VX`, ends the wait and moves on.
pub proof fn lemma_key_wait_step(s: Machine, r: u8)
    requires
        s.wf(),
        can_cycle(s),
        is_key_wait(current_opcode(s)),
    ensures
        (s.state matches State::Pressed(k) && !s.keys[k as int]) ==> {
            &&& cycle(s, r).pc == s.pc + 2
            &&& cycle(s, r).regs == s.regs.update(current_opcode(s).1 as int, s.state->0)
            &&& cycle(s, r).state == State::Running
        },
        !(s.state matches State::Pressed(k) && !s.keys[k as int]) ==> {
            &&& cycle(s, r).pc == s.pc
            &&& cycle(s, r).regs == s.regs
        },
{
}

proof fn lemma_first_pressed_exists(keys: Seq<bool>, k: int)
    requires
        0 <= k < KEY_COUNT,
        keys[k],
    ensures
        exists|j: int| is_first_pressed(keys, j),
    decreases k,
{
    if exists|j: int| 0 <= j < k && #[trigger] keys[j] {
        let j = choose|j: int| 0 <= j < k && #[trigger] keys[j];
        lemma_first_pressed_exists(keys, j);
    } else {
        assert(is_first_pressed(keys, k));
    }
}

/// The whole key wait of `FX0A`, started with every key up: a cycle that
/// sees every key up starts waiting; the next, seeing keys down, remembers
/// the lowest of them; the next, seeing that key up, stores it in `VX` and
/// moves past the instruction. Until then the program counter stays on it and
/// the registers keep their values.
pub proof fn lemma_key_wait_sequence(
    s: Machine,
    down: Seq<bool>,
    up: Seq<bool>,
    r1: u8,
    r2: u8,
    r3: u8,
)
    requires
        s.wf(),
        can_cycle(s),
        is_key_wait(current_opcode(s)),
        s.state == State::Running,
        !any_pressed(s.keys),
        down.len() == KEY_COUNT,
        any_pressed(down),
        up.len() == KEY_COUNT,
        !up[first_pressed(down)],
    ensures
        ({
            let x = current_opcode(s).1;
            let k = first_pressed(down);
            let s1 = cycle(s, r1);
            let s2 = cycle(Machine { keys: down, ..s1 }, r2);
            let s3 = cycle(Machine { keys: up, ..s2 }, r3);
            &&& 0 <= k < KEY_COUNT
            &&& s1.pc == s.pc && s1.regs == s.regs && s1.state == State::Waiting
            &&& s2.pc == s.pc && s2.regs == s.regs && s2.state == State::Pressed(k as u8)
            &&& s3.pc == s.pc + 2 && s3.regs == s.regs.update(x as int, k as u8)
            &&& s3.state == State::Running
        }),
{
    let k0 = choose|k: int| 0 <= k < KEY_COUNT && #[trigger] down[k];
    lemma_first_pressed_exists(down, k0);
    let k = first_pressed(down);
    assert(is_first_pressed(down, k));
    let s1 = cycle(s, r1);
    let t1 = Machine { keys: down, ..s1 };
    assert(current_opcode(t1) == current_opcode(s));
    assert(can_cycle(t1));
    let s2 = cycle(t1, r2);
    let t2 = Machine { keys: up, ..s2 };
    assert(current_opcode(t2) == current_opcode(s));
    assert(can_cycle(t2));
}

/// One step of the key wait on the keyboard a cycle sees: waiting for every
/// key up, then for a key down (the lowest is remembered), then for that key
/// to go up (which ends the wait, back to `Running`).
pub open spec fn key_wait_step(state: State, keys: Seq<bool>) -> State {
    match state {
        State::Running => if any_pressed(keys) {
            State::Running
        } else {
            State::Waiting
        },
        State::Waiting => if any_pressed(keys) {
            State::Pressed(first_pressed(keys) as u8)
        } else {
            State::Waiting
        },
        State::Pressed(k) => if keys[k as int] {
            State::Pressed(k)
        } else {
            State::Running
        },
    }
}

/// A cycle that sees `keys` ends the wait: the remembered key is up.
pub open spec fn ends_wait(state: State, keys: Seq<bool>) -> bool {
    state matches State::Pressed(k) && !keys[k as int]
}

/// The key wait after the keyboards `boards`, one per cycle, in turn.
pub open spec fn key_wait_after(state: State, boards: Seq<Seq<bool>>) -> State
    decreases boards.len(),
{
    if boards.len() == 0 {
        state
    } else {
        key_wait_step(key_wait_after(state, boards.drop_last()), boards.last())
    }
}

/// None of the keyboards `boards` ends the wait.
pub open spec fn wait_goes_on(state: State, boards: Seq<Seq<bool>>) -> bool {
    forall|i: int|
        0 <= i < boards.len() ==> !ends_wait(key_wait_after(state, boards.take(i)), #[trigger] boards[i])
}

/// Cycles one after another; cycle `i` sees keyboard `boards[i]` and random
/// byte `randoms[i]`.
pub open spec fn run_cycles(s: Machine, boards: Seq<Seq<bool>>, randoms: Seq<u8>) -> Machine
    decreases boards.len(),
{
    if boards.len() == 0 {
        s
    } else {
        let before = run_cycles(s, boards.drop_last(), randoms);
        cycle(Machine { keys: boards.last(), ..before }, randoms[boards.len() - 1])
    }
}

/// Every keyboard has all keys.
pub open spec fn full_boards(boards: Seq<Seq<bool>>) -> bool {
    forall|i: int| 0 <= i < boards.len() ==> #[trigger] boards[i].len() == KEY_COUNT
}

proof fn lemma_first_pressed_in_range(keys: Seq<bool>)
    requires
        keys.len() == KEY_COUNT,
        any_pressed(keys),
    ensures
        is_first_pressed(keys, first_pressed(keys)),
{
    let k = choose|k: int| 0 <= k < KEY_COUNT && #[trigger] keys[k];
    lemma_first_pressed_exists(keys, k);
}

proof fn lemma_key_wait_after_in_range(state: State, boards: Seq<Seq<bool>>)
    requires
        full_boards(boards),
        state matches State::Pressed(k) ==> k < KEY_COUNT,
    ensures
        key_wait_after(state, boards) matches State::Pressed(k) ==> k < KEY_COUNT,
    decreases boards.len(),
{
    if boards.len() > 0 {
        lemma_key_wait_after_in_range(state, boards.drop_last());
        assert(boards.last() == boards[boards.len() - 1]);
        if any_pressed(boards.last()) {
            lemma_first_pressed_in_range(boards.last());
        }
    }
}

/// The key wait of `FX0A` over any number of cycles and keyboards: as long as
/// no cycle sees the remembered key go up, the machine stays on the
/// instruction with everything but the keypad and the wait unchanged, the
/// wait following `key_wait_step`; the first cycle that sees the remembered
/// key up stores it in `VX`, ends the wait and moves past the instruction.
pub proof fn lemma_key_wait_run(
    s: Machine,
    boards: Seq<Seq<bool>>,
    randoms: Seq<u8>,
    last: Seq<bool>,
    r: u8,
)
    requires
        s.wf(),
        can_cycle(s),
        is_key_wait(current_opcode(s)),
        full_boards(boards),
        last.len() == KEY_COUNT,
        wait_goes_on(s.state, boards),
    ensures
        run_cycles(s, boards, randoms) == (Machine {
            keys: if boards.len() == 0 {
                s.keys
            } else {
                boards.last()
            },
            state: key_wait_after(s.state, boards),
            ..s
        }),
        ends_wait(key_wait_after(s.state, boards), last) ==> cycle(
            Machine { keys: last, ..run_cycles(s, boards, randoms) },
            r,
        ) == (Machine {
            keys: last,
            state: State::Running,
            pc: s.pc + 2,
            regs: s.regs.update(
                current_opcode(s).1 as int,
                key_wait_after(s.state, boards)->Pressed_0,
            ),
            ..s
        }),
    decreases boards.len(),
{
    lemma_key_wait_after_in_range(s.state, boards);
    if boards.len() > 0 {
        let b = boards.drop_last();
        assert forall|i: int| 0 <= i < b.len() implies !ends_wait(
            key_wait_after(s.state, b.take(i)),
            #[trigger] b[i],
        ) by {
            assert(b.take(i) =~= boards.take(i));
            assert(b[i] == boards[i]);
        }
        assert(full_boards(b)) by {
            assert forall|i: int| 0 <= i < b.len() implies #[trigger] b[i].len() == KEY_COUNT by {
                assert(b[i] == boards[i]);
            }
        }
        lemma_key_wait_run(s, b, randoms, boards.last(), r);
        lemma_key_wait_after_in_range(s.state, b);
        let st = key_wait_after(s.state, b);
        let t = Machine { keys: boards.last(), ..run_cycles(s, b, randoms) };
        assert(t == Machine { keys: boards.last(), state: st, ..s });
        assert(boards.take(b.len() as int) =~= b);
        assert(boards[b.len() as int] == boards.last());
        assert(!ends_wait(st, boards.last()));
        assert(current_opcode(t) == current_opcode(s));
        assert(boards.last().len() == KEY_COUNT) by {
            assert(boards[boards.len() - 1].len() == KEY_COUNT);
        }
        assert(t.wf());
        assert(can_cycle(t));
        if st is Waiting && any_pressed(boards.last()) {
            lemma_first_pressed_in_range(boards.last());
        }
    }
    let st = key_wait_after(s.state, boards);
    let u = Machine { keys: last, ..run_cycles(s, boards, randoms) };
    assert(u == Machine { keys: last, state: st, ..s });
    assert(current_opcode(u) == current_opcode(s));
    assert(u.wf());
    assert(can_cycle(u));
}

/// From `Running`, the key wait remembers a key only after a cycle that saw
/// every key up and a later cycle that saw keys down, of which the remembered
/// key is the lowest; it is `Waiting` only after a cycle that saw every key up.
pub proof fn lemma_key_wait_order(boards: Seq<Seq<bool>>)
    requires
        full_boards(boards),
    ensures
        key_wait_after(State::Running, boards) matches State::Pressed(k) ==> exists|i: int, j: int|
            #![trigger boards[i], boards[j]]
            0 <= i < j < boards.len() && !any_pressed(boards[i]) && any_pressed(boards[j]) && k
                == first_pressed(boards[j]) as u8,
        key_wait_after(State::Running, boards) == State::Waiting ==> exists|i: int|
            0 <= i < boards.len() && !any_pressed(#[trigger] boards[i]),
    decreases boards.len(),
{
    if boards.len() > 0 {
        let b = boards.drop_last();
        let n = b.len() as int;
        assert(full_boards(b)) by {
            assert forall|i: int| 0 <= i < b.len() implies #[trigger] b[i].len() == KEY_COUNT by {
                assert(b[i] == boards[i]);
            }
        }
        lemma_key_wait_order(b);
        let st = key_wait_after(State::Running, b);
        assert(boards[n] == boards.last());
        match key_wait_after(State::Running, boards) {
            State::Pressed(k) => {
                if st is Waiting {
                    let i = choose|i: int| 0 <= i < b.len() && !any_pressed(#[trigger] b[i]);
                    assert(boards[i] == b[i]);
                    assert(0 <= i < n < boards.len() && !any_pressed(boards[i]) && any_pressed(
                        boards[n],
                    ) && k == first_pressed(boards[n]) as u8);
                } else {
                    let (i, j) = choose|i: int, j: int|
                        #![trigger b[i], b[j]]
                        0 <= i < j < b.len() && !any_pressed(b[i]) && any_pressed(b[j]) && k
                            == first_pressed(b[j]) as u8;
                    assert(boards[i] == b[i] && boards[j] == b[j]);
                }
            },
            State::Waiting => {
                if st is Waiting {
                    let i = choose|i: int| 0 <= i < b.len() && !any_pressed(#[trigger] b[i]);
                    assert(boards[i] == b[i]);
                } else {
                    assert(!any_pressed(boards[n]));
                }
            },
            State::Running => {},
        }
    }
}

} // verus!
