use chip_8::cpu::CPU;
use chip_8::emu::keyboard::{get_keyboard, Key};
use chip_8::ui::emulator::{map_keys, period_elapsed, update_keyboard, HostKey, CPU_HZ, TIMER_HZ};

#[test]
fn keyboard_has_every_key_up() {
    let keys = get_keyboard();
    assert_eq!(keys.len(), 16);
    for k in 0u8..16 {
        assert_eq!(keys.get(&k), Some(&false));
    }
    assert_eq!(keys.get(&16), None);
}

#[test]
fn key_digits_roundtrip() {
    for v in 0u8..16 {
        assert_eq!(u8::from(Key::from_u8(v)), v);
    }
    assert_eq!(u8::from(Key::A), 0xA);
    assert!(Key::from_u8(0xF) == Key::F);
    assert!(Key::from_u8(0) == Key::ZERO);
}

#[test]
fn host_keys_map_to_keypad() {
    assert_eq!(map_keys(&HostKey::Key1), Some(1));
    assert_eq!(map_keys(&HostKey::Key4), Some(0xC));
    assert_eq!(map_keys(&HostKey::X), Some(0));
    assert_eq!(map_keys(&HostKey::V), Some(0xF));
    assert_eq!(map_keys(&HostKey::Other), None);
    let all = [
        HostKey::Key1, HostKey::Key2, HostKey::Key3, HostKey::Key4, HostKey::Q, HostKey::W, HostKey::E,
        HostKey::R, HostKey::A, HostKey::S, HostKey::D, HostKey::F, HostKey::Z, HostKey::X, HostKey::C,
        HostKey::V,
    ];
    let mut seen = [false; 16];
    for k in all.iter() {
        let i = map_keys(k).unwrap();
        assert!(!seen[i]);
        seen[i] = true;
    }
    assert!(seen.iter().all(|s| *s));
}

#[test]
fn keyboard_follows_host_key_changes() {
    let mut cpu = CPU::default();
    // Q goes down: keypad 4 is down
    update_keyboard(&mut cpu, &vec![], &vec![HostKey::Q, HostKey::Other]);
    assert!(cpu.keyboard()[4]);
    // Q is let go, W goes down: keypad 4 is up, keypad 5 down
    update_keyboard(&mut cpu, &vec![HostKey::Q, HostKey::Other], &vec![HostKey::W]);
    assert!(!cpu.keyboard()[4]);
    assert!(cpu.keyboard()[5]);
    // W stays down: nothing changes
    update_keyboard(&mut cpu, &vec![HostKey::W], &vec![HostKey::W]);
    assert!(!cpu.keyboard()[4]);
    assert!(cpu.keyboard()[5]);
    let down: usize = cpu.keyboard().iter().filter(|k| **k).count();
    assert_eq!(down, 1);
    // W is let go: every key is up
    update_keyboard(&mut cpu, &vec![HostKey::W], &vec![]);
    assert!(cpu.keyboard().iter().all(|k| !k));
}

#[test]
fn clock_periods() {
    assert!(!period_elapsed(16_665, TIMER_HZ));
    assert!(period_elapsed(16_666, TIMER_HZ));
    assert!(!period_elapsed(1_427, CPU_HZ));
    assert!(period_elapsed(1_428, CPU_HZ));
}
