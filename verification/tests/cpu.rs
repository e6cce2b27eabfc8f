use chip_8::cpu::{Timer, CPU};

/// A machine with `program` loaded at the program start.
fn machine(program: &[u8]) -> CPU {
    let mut cpu = CPU::default();
    cpu.load_rom(program);
    cpu
}

/// Runs `cycles` cycles, each of which must be able to run.
fn run(cpu: &mut CPU, cycles: usize) {
    for _ in 0..cycles {
        assert!(cpu.can_run_cycle());
        cpu.one_clock_cycle_with(0);
    }
}

#[test]
fn timer_set_then_get() {
    let mut t = Timer::default();
    assert_eq!(t.get(), 0);
    t.set(42);
    assert_eq!(t.get(), 42);
}

#[test]
fn timer_decrement_counts_down() {
    let mut t = Timer::default();
    t.set(2);
    t.decrement();
    assert_eq!(t.get(), 1);
    t.decrement();
    assert_eq!(t.get(), 0);
}

#[test]
fn timer_decrement_edges() {
    let mut t = Timer::default();
    t.set(255);
    t.decrement();
    assert_eq!(t.get(), 254);
    t.set(1);
    t.decrement();
    assert_eq!(t.get(), 0);
    t.decrement();
    assert_eq!(t.get(), 255);
}

#[test]
fn power_on_state() {
    let cpu = CPU::default();
    assert!(cpu.display().iter().all(|row| row.iter().all(|p| !p)));
    assert!(cpu.keyboard().iter().all(|k| !k));
    assert_eq!(cpu.delay_timer().get(), 0);
    assert_eq!(cpu.sound_timer().get(), 0);
    // memory after the program start is zero: 0000 cannot run
    assert!(!cpu.can_run_cycle());
}

#[test]
fn set_and_add_wrap() {
    // VA = 0xFF; VA += 2; delay = VA
    let mut cpu = machine(&[0x6A, 0xFF, 0x7A, 0x02, 0xFA, 0x15]);
    run(&mut cpu, 3);
    assert_eq!(cpu.delay_timer().get(), 1);
}

#[test]
fn add_with_carry() {
    // V0 = 0xFF; V1 = 2; V0 += V1; delay = V0; sound = VF
    let mut cpu = machine(&[0x60, 0xFF, 0x61, 0x02, 0x80, 0x14, 0xF0, 0x15, 0xFF, 0x18]);
    run(&mut cpu, 5);
    assert_eq!(cpu.delay_timer().get(), 1);
    assert_eq!(cpu.sound_timer().get(), 1);
}

#[test]
fn sub_with_borrow() {
    // V0 = 3; V1 = 5; V0 -= V1; delay = V0; sound = VF
    let mut cpu = machine(&[0x60, 0x03, 0x61, 0x05, 0x80, 0x15, 0xF0, 0x15, 0xFF, 0x18]);
    run(&mut cpu, 5);
    assert_eq!(cpu.delay_timer().get(), 254);
    assert_eq!(cpu.sound_timer().get(), 0);
}

#[test]
fn subn_without_borrow() {
    // V0 = 3; V1 = 5; V0 = V1 - V0; delay = V0; sound = VF
    let mut cpu = machine(&[0x60, 0x03, 0x61, 0x05, 0x80, 0x17, 0xF0, 0x15, 0xFF, 0x18]);
    run(&mut cpu, 5);
    assert_eq!(cpu.delay_timer().get(), 2);
    assert_eq!(cpu.sound_timer().get(), 1);
}

#[test]
fn shifts_use_vy() {
    // V1 = 0x81; V0 = V1 >> 1; delay = V0; sound = VF
    let mut cpu = machine(&[0x61, 0x81, 0x80, 0x16, 0xF0, 0x15, 0xFF, 0x18]);
    run(&mut cpu, 4);
    assert_eq!(cpu.delay_timer().get(), 0x40);
    assert_eq!(cpu.sound_timer().get(), 1);
    // V1 = 0x81; V0 = V1 << 1; delay = V0; sound = VF
    let mut cpu = machine(&[0x61, 0x81, 0x80, 0x1E, 0xF0, 0x15, 0xFF, 0x18]);
    run(&mut cpu, 4);
    assert_eq!(cpu.delay_timer().get(), 0x02);
    assert_eq!(cpu.sound_timer().get(), 1);
}

#[test]
fn logic_ops_reset_flag() {
    // VF = 7; V0 = 0x0C; V1 = 0x0A; V0 |= V1; delay = V0; sound = VF
    let mut cpu = machine(&[0x6F, 0x07, 0x60, 0x0C, 0x61, 0x0A, 0x80, 0x11, 0xF0, 0x15, 0xFF, 0x18]);
    run(&mut cpu, 6);
    assert_eq!(cpu.delay_timer().get(), 0x0E);
    assert_eq!(cpu.sound_timer().get(), 0);
    // AND and XOR
    let mut cpu = machine(&[0x60, 0x0C, 0x61, 0x0A, 0x80, 0x12, 0xF0, 0x15]);
    run(&mut cpu, 4);
    assert_eq!(cpu.delay_timer().get(), 0x08);
    let mut cpu = machine(&[0x60, 0x0C, 0x61, 0x0A, 0x80, 0x13, 0xF0, 0x15]);
    run(&mut cpu, 4);
    assert_eq!(cpu.delay_timer().get(), 0x06);
}

#[test]
fn skips() {
    // V0 = 5; skip if V0 == 5; V1 = 7 (skipped); V1 = 9; delay = V1
    let mut cpu = machine(&[0x60, 0x05, 0x30, 0x05, 0x61, 0x07, 0x61, 0x09, 0xF1, 0x15]);
    run(&mut cpu, 4);
    assert_eq!(cpu.delay_timer().get(), 9);
    // V0 = 5; skip if V0 != 5 (not taken); V1 = 7; delay = V1
    let mut cpu = machine(&[0x60, 0x05, 0x40, 0x05, 0x61, 0x07, 0xF1, 0x15]);
    run(&mut cpu, 4);
    assert_eq!(cpu.delay_timer().get(), 7);
    // V0 = V1 = 0: 5010 skips, 9010 does not
    let mut cpu = machine(&[0x50, 0x10, 0x62, 0x01, 0x90, 0x10, 0x63, 0x04, 0xF3, 0x15]);
    run(&mut cpu, 4);
    assert_eq!(cpu.delay_timer().get(), 4);
}

#[test]
fn call_and_return() {
    // 0x200: call 0x206; 0x202: delay = V0; 0x204: jump 0x204
    // 0x206: V0 = 0x33; 0x208: return
    let mut cpu = machine(&[0x22, 0x06, 0xF0, 0x15, 0x12, 0x04, 0x60, 0x33, 0x00, 0xEE]);
    run(&mut cpu, 4);
    assert_eq!(cpu.delay_timer().get(), 0x33);
}

#[test]
fn return_with_empty_stack_cannot_run() {
    let cpu = machine(&[0x00, 0xEE]);
    assert!(!cpu.can_run_cycle());
}

#[test]
fn unknown_instructions_cannot_run() {
    for program in [[0x00u8, 0x00], [0x00, 0xE1], [0x50, 0x01], [0x80, 0x18], [0xE0, 0x9F], [0xF0, 0x99]] {
        let cpu = machine(&program);
        assert!(!cpu.can_run_cycle());
    }
}

#[test]
fn jump_with_offset() {
    // V0 = 4; jump to 0x200 + V0, where delay = V0 stands
    let mut cpu = machine(&[0x60, 0x04, 0xB2, 0x00, 0xF0, 0x15]);
    run(&mut cpu, 3);
    assert_eq!(cpu.delay_timer().get(), 4);
}

#[test]
fn random_is_masked() {
    let mut cpu = machine(&[0xC0, 0x0F, 0xF0, 0x15]);
    assert!(cpu.can_run_cycle());
    cpu.one_clock_cycle_with(0xAB);
    run(&mut cpu, 1);
    assert_eq!(cpu.delay_timer().get(), 0x0B);
    let mut cpu = machine(&[0xC0, 0x0F, 0xF0, 0x15]);
    cpu.one_clock_cycle();
    cpu.one_clock_cycle();
    assert!(cpu.delay_timer().get() <= 0x0F);
}

#[test]
fn draw_font_glyph_and_erase() {
    // V0 = 0; V1 = 0; I = font of V0; draw 5 rows at (V0, V1); sound = VF
    let program = [0x60, 0x00, 0x61, 0x00, 0xF0, 0x29, 0xD0, 0x15, 0xFF, 0x18, 0xD0, 0x15, 0xFF, 0x18];
    let mut cpu = machine(&program);
    run(&mut cpu, 5);
    let d = cpu.display();
    // the glyph of 0 is F0 90 90 90 F0
    assert!(d[0][0] && d[0][1] && d[0][2] && d[0][3] && !d[0][4]);
    assert!(d[1][0] && !d[1][1] && !d[1][2] && d[1][3]);
    assert!(d[4][0] && d[4][3]);
    assert!(!d[5][0]);
    assert_eq!(cpu.sound_timer().get(), 0);
    run(&mut cpu, 2);
    assert!(cpu.display().iter().all(|row| row.iter().all(|p| !p)));
    assert_eq!(cpu.sound_timer().get(), 1);
}

#[test]
fn draw_clips_at_edges() {
    // V0 = 62; V1 = 31; I = font of 0 (V2 = 0); draw 5 rows at (62, 31)
    let program = [0x60, 62, 0x61, 31, 0x62, 0x00, 0xF2, 0x29, 0xD0, 0x15];
    let mut cpu = machine(&program);
    run(&mut cpu, 5);
    let d = cpu.display();
    assert!(d[31][62] && d[31][63]);
    assert!(!d[0][0] && !d[0][62]);
    let lit = d.iter().map(|row| row.iter().filter(|p| **p).count()).sum::<usize>();
    assert_eq!(lit, 2);
}

#[test]
fn draw_wraps_start_position() {
    // V0 = 64 + 1; V1 = 32 + 2; draws at (1, 2)
    let program = [0x60, 65, 0x61, 34, 0x62, 0x00, 0xF2, 0x29, 0xD0, 0x11];
    let mut cpu = machine(&program);
    run(&mut cpu, 5);
    let d = cpu.display();
    assert!(d[2][1] && d[2][4] && !d[2][5] && !d[2][0]);
}

#[test]
fn clear_screen() {
    let program = [0x62, 0x00, 0xF2, 0x29, 0xD2, 0x25, 0x00, 0xE0];
    let mut cpu = machine(&program);
    run(&mut cpu, 3);
    assert!(cpu.display()[0][0]);
    run(&mut cpu, 1);
    assert!(cpu.display().iter().all(|row| row.iter().all(|p| !p)));
}

#[test]
fn draw_past_memory_end_cannot_run() {
    // I = 0xFFE; draw 5 rows: rows beyond 0xFFF would be read
    let mut cpu = machine(&[0xAF, 0xFE, 0xD0, 0x05]);
    run(&mut cpu, 1);
    assert!(!cpu.can_run_cycle());
}

#[test]
fn store_and_load_registers() {
    // V0 = 5; V1 = 7; I = 0x300; store V0..V1; V0 = 0; V1 = 0; I = 0x300; load V0..V1; delay = V0; sound = V1
    let program = [
        0x60, 0x05, 0x61, 0x07, 0xA3, 0x00, 0xF1, 0x55, 0x60, 0x00, 0x61, 0x00, 0xA3, 0x00, 0xF1, 0x65,
        0xF0, 0x15, 0xF1, 0x18,
    ];
    let mut cpu = machine(&program);
    run(&mut cpu, 10);
    assert_eq!(cpu.delay_timer().get(), 5);
    assert_eq!(cpu.sound_timer().get(), 7);
}

#[test]
fn store_advances_index() {
    // I = 0x300; V0 = 9; store V0; I now 0x301; store V0 again; I = 0x300; load V0..V1; sound = V1
    let program = [0xA3, 0x00, 0x60, 0x09, 0xF0, 0x55, 0xF0, 0x55, 0xA3, 0x00, 0xF1, 0x65, 0xF1, 0x18];
    let mut cpu = machine(&program);
    run(&mut cpu, 7);
    assert_eq!(cpu.sound_timer().get(), 9);
}

#[test]
fn binary_coded_decimal() {
    // VA = 123; I = 0x300; BCD of VA; load V0..V2; delay = V0; sound = V2
    let program = [0x6A, 123, 0xA3, 0x00, 0xFA, 0x33, 0xF2, 0x65, 0xF0, 0x15, 0xF2, 0x18];
    let mut cpu = machine(&program);
    run(&mut cpu, 6);
    assert_eq!(cpu.delay_timer().get(), 1);
    assert_eq!(cpu.sound_timer().get(), 3);
}

#[test]
fn add_to_index_flag() {
    // I = 0xFFF; V0 = 1; I += V0 -> 0x1000, VF = 1; sound = VF
    let mut cpu = machine(&[0xAF, 0xFF, 0x60, 0x01, 0xF0, 0x1E, 0xFF, 0x18]);
    run(&mut cpu, 4);
    assert_eq!(cpu.sound_timer().get(), 1);
    // I = 0x100; V0 = 1; I += V0 -> 0x101, VF = 0
    let mut cpu = machine(&[0xA1, 0x00, 0x60, 0x01, 0xF0, 0x1E, 0xFF, 0x18]);
    run(&mut cpu, 4);
    assert_eq!(cpu.sound_timer().get(), 0);
}

#[test]
fn font_address_overflow_cannot_run() {
    // V0 = 52: 52 * 5 does not fit a byte
    let mut cpu = machine(&[0x60, 52, 0xF0, 0x29]);
    run(&mut cpu, 1);
    assert!(!cpu.can_run_cycle());
}

#[test]
fn key_skips() {
    // V0 = 3; skip if key V0 down; V1 = 1; skip if key V0 up; V2 = 2; delay = V1; sound = V2
    let program = [0x60, 0x03, 0xE0, 0x9E, 0x61, 0x01, 0xE0, 0xA1, 0x62, 0x02, 0xF1, 0x15, 0xF2, 0x18];
    let mut cpu = machine(&program);
    cpu.set_key(3, true);
    run(&mut cpu, 6);
    assert_eq!(cpu.delay_timer().get(), 0);
    assert_eq!(cpu.sound_timer().get(), 2);
}

#[test]
fn key_outside_keypad_cannot_run() {
    let mut cpu = machine(&[0x60, 0x10, 0xE0, 0x9E]);
    run(&mut cpu, 1);
    assert!(!cpu.can_run_cycle());
}

#[test]
fn wait_for_key_press_and_release() {
    // wait for a key into V5; delay = V5
    let mut cpu = machine(&[0xF5, 0x0A, 0xF5, 0x15]);
    cpu.set_key(2, true);
    // a key is already down: stays on the instruction
    run(&mut cpu, 1);
    cpu.set_key(2, false);
    // no key down: starts waiting
    run(&mut cpu, 1);
    run(&mut cpu, 1);
    cpu.set_key(7, true);
    cpu.set_key(9, true);
    // the lowest key down is remembered
    run(&mut cpu, 1);
    // still down: waits
    run(&mut cpu, 1);
    cpu.set_key(7, false);
    // released: V5 = 7, execution goes on
    run(&mut cpu, 1);
    run(&mut cpu, 1);
    assert_eq!(cpu.delay_timer().get(), 7);
}

#[test]
fn timers_tick_together() {
    // V0 = 3; delay = V0; sound = V0
    let mut cpu = machine(&[0x60, 0x03, 0xF0, 0x15, 0xF0, 0x18]);
    run(&mut cpu, 3);
    cpu.tick_timers();
    assert_eq!(cpu.delay_timer().get(), 2);
    assert_eq!(cpu.sound_timer().get(), 2);
    cpu.tick_timers();
    cpu.tick_timers();
    assert_eq!(cpu.delay_timer().get(), 0);
    assert_eq!(cpu.sound_timer().get(), 0);
    cpu.tick_timers();
    assert_eq!(cpu.delay_timer().get(), 255);
    assert_eq!(cpu.sound_timer().get(), 255);
}

#[test]
fn delay_timer_into_register() {
    // V0 = 9; delay = V0; V1 = delay; sound = V1
    let mut cpu = machine(&[0x60, 0x09, 0xF0, 0x15, 0xF1, 0x07, 0xF1, 0x18]);
    run(&mut cpu, 4);
    assert_eq!(cpu.sound_timer().get(), 9);
}

#[test]
fn index_set_and_program_end() {
    // ANNN sets I: I = 0xFFF; a load of V0 reads the last byte (0), fine
    let mut cpu = machine(&[0xAF, 0xFF, 0xF0, 0x65, 0xF0, 0x18]);
    run(&mut cpu, 3);
    assert_eq!(cpu.sound_timer().get(), 0);
    // I = 0xFFF; a load of V0..V1 would read past the end
    let mut cpu = machine(&[0xAF, 0xFF, 0xF1, 0x65]);
    run(&mut cpu, 1);
    assert!(!cpu.can_run_cycle());
}

#[test]
fn fetch_past_memory_end_cannot_run() {
    // jump to 0xFFF: the instruction would straddle the end of memory
    let mut cpu = machine(&[0x1F, 0xFF]);
    run(&mut cpu, 1);
    assert!(!cpu.can_run_cycle());
}
