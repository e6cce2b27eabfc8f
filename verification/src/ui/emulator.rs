//! The emulator's host side: which host keys drive the keypad, and how often
//! the processor and the timers run.
use vstd::prelude::*;

use crate::cpu::semantics::{Machine, KEY_COUNT};
use crate::cpu::CPU;

verus! {

/// Cycles the processor runs per second.
pub const CPU_HZ: u64 = 700;

/// Timer ticks per second.
pub const TIMER_HZ: u64 = 60;

/// Whether a period of a clock running at `hz` ticks per second has passed
/// after `elapsed_micros` microseconds.
pub fn period_elapsed(elapsed_micros: u128, hz: u64) -> (due: bool)
    requires
        hz > 0,
    ensures
        due == (elapsed_micros >= 1_000_000int / (hz as int)),
{
    elapsed_micros >= (1_000_000 / hz) as u128
}

/// A key of the host keyboard, as far as the keypad cares.
#[derive(Clone, Copy, PartialEq, Eq, Structural)]
pub enum HostKey {
    Key1,
    Key2,
    Key3,
    Key4,
    Q,
    W,
    E,
    R,
    A,
    S,
    D,
    F,
    Z,
    X,
    C,
    V,
    /// Any key that is not on the keypad.
    Other,
}

/// The keypad key a host key stands for: the left-hand 4x4 block of the
/// keyboard (`1 2 3 4 / Q W E R / A S D F / Z X C V`) is the keypad
/// (`1 2 3 C / 4 5 6 D / 7 8 9 E / A 0 B F`).
pub open spec fn keypad_key(key: HostKey) -> Option<usize> {
    match key {
        HostKey::Key1 => Some(1),
        HostKey::Key2 => Some(2),
        HostKey::Key3 => Some(3),
        HostKey::Key4 => Some(0xC),
        HostKey::Q => Some(4),
        HostKey::W => Some(5),
        HostKey::E => Some(6),
        HostKey::R => Some(0xD),
        HostKey::A => Some(7),
        HostKey::S => Some(8),
        HostKey::D => Some(9),
        HostKey::F => Some(0xE),
        HostKey::Z => Some(0xA),
        HostKey::X => Some(0),
        HostKey::C => Some(0xB),
        HostKey::V => Some(0xF),
        HostKey::Other => None,
    }
}

/// The keypad key of a host key, if it has one.
pub fn map_keys(key: &HostKey) -> (k: Option<usize>)
    ensures
        k == keypad_key(*key),
{
    match key {
        HostKey::Key1 => Some(1),
        HostKey::Key2 => Some(2),
        HostKey::Key3 => Some(3),
        HostKey::Key4 => Some(0xC),
        HostKey::Q => Some(4),
        HostKey::W => Some(5),
        HostKey::E => Some(6),
        HostKey::R => Some(0xD),
        HostKey::A => Some(7),
        HostKey::S => Some(8),
        HostKey::D => Some(9),
        HostKey::F => Some(0xE),
        HostKey::Z => Some(0xA),
        HostKey::X => Some(0),
        HostKey::C => Some(0xB),
        HostKey::V => Some(0xF),
        HostKey::Other => None,
    }
}

/// The keypad mapping sends distinct host keys to distinct keypad keys, all
/// of them on the keypad, and every keypad key has a host key.
pub proof fn lemma_keypad_mapping(a: HostKey, b: HostKey, k: usize)
    ensures
        keypad_key(a) matches Some(i) ==> i < KEY_COUNT,
        keypad_key(a) is Some && keypad_key(a) == keypad_key(b) ==> a == b,
        k < KEY_COUNT ==> exists|h: HostKey| keypad_key(h) == Some(k),
{
    if k < KEY_COUNT {
        let h = if k == 0 { HostKey::X } else if k == 1 { HostKey::Key1 } else if k == 2 {
            HostKey::Key2
        } else if k == 3 { HostKey::Key3 } else if k == 4 { HostKey::Q } else if k == 5 {
            HostKey::W
        } else if k == 6 { HostKey::E } else if k == 7 { HostKey::A } else if k == 8 {
            HostKey::S
        } else if k == 9 { HostKey::D } else if k == 0xA { HostKey::Z } else if k == 0xB {
            HostKey::C
        } else if k == 0xC { HostKey::Key4 } else if k == 0xD { HostKey::R } else if k == 0xE {
            HostKey::F
        } else { HostKey::V };
        assert(keypad_key(h) == Some(k));
    }
}

/// Some host key of `keys` that is missing from `others` stands for keypad
/// key `k`.
pub open spec fn changed_to(keys: Seq<HostKey>, others: Seq<HostKey>, k: int) -> bool {
    exists|j: int|
        0 <= j < keys.len() && !others.contains(keys[j]) && #[trigger] keypad_key(keys[j]) == Some(
            k as usize,
        )
}

/// The keypad after the host keys went from `prev` to `keys`: a keypad key
/// whose host key was let go becomes `false` (up); otherwise one whose host
/// key went down becomes `true` (down); the others keep their state.
pub open spec fn keypad_after(keypad: Seq<bool>, prev: Seq<HostKey>, keys: Seq<HostKey>) -> Seq<
    bool,
> {
    Seq::new(
        keypad.len(),
        |k: int|
            if changed_to(prev, keys, k) {
                false
            } else if changed_to(keys, prev, k) {
                true
            } else {
                keypad[k]
            },
    )
}

/// A keypad key whose host key went down is down afterwards, one whose host
/// key was let go is up, and one whose host key did neither keeps its state;
/// the keypad keeps its size.
pub proof fn lemma_keypad_follows_host_keys(
    keypad: Seq<bool>,
    prev: Seq<HostKey>,
    keys: Seq<HostKey>,
    h: HostKey,
)
    requires
        keypad.len() == KEY_COUNT,
    ensures
        keypad_after(keypad, prev, keys).len() == KEY_COUNT,
        keypad_key(h) matches Some(k) ==> {
            &&& keys.contains(h) && !prev.contains(h) ==> keypad_after(keypad, prev, keys)[k as int]
            &&& prev.contains(h) && !keys.contains(h) ==> !keypad_after(keypad, prev, keys)[k as int]
            &&& keys.contains(h) == prev.contains(h) ==> keypad_after(keypad, prev, keys)[k as int]
                == keypad[k as int]
        },
{
    if let Some(k) = keypad_key(h) {
        lemma_keypad_mapping(h, h, 0);
        let kk = k as int;
        assert forall|j: int|
            0 <= j < prev.len() && keypad_key(prev[j]) == Some(k) implies prev[j] == h by {
            lemma_keypad_mapping(h, prev[j], 0);
        }
        assert forall|j: int|
            0 <= j < keys.len() && keypad_key(keys[j]) == Some(k) implies keys[j] == h by {
            lemma_keypad_mapping(h, keys[j], 0);
        }
        if keys.contains(h) && !prev.contains(h) {
            let j = choose|j: int| 0 <= j < keys.len() && keys[j] == h;
            assert(keypad_key(keys[j]) == Some(kk as usize));
            assert(changed_to(keys, prev, kk));
            if changed_to(prev, keys, kk) {
                let m = choose|m: int|
                    0 <= m < prev.len() && !keys.contains(prev[m]) && #[trigger] keypad_key(prev[m])
                        == Some(kk as usize);
                assert(prev[m] == h);
            }
        }
        if prev.contains(h) && !keys.contains(h) {
            let j = choose|j: int| 0 <= j < prev.len() && prev[j] == h;
            assert(keypad_key(prev[j]) == Some(kk as usize));
            assert(changed_to(prev, keys, kk));
        }
        if keys.contains(h) == prev.contains(h) {
            if changed_to(prev, keys, kk) {
                let m = choose|m: int|
                    0 <= m < prev.len() && !keys.contains(prev[m]) && #[trigger] keypad_key(prev[m])
                        == Some(kk as usize);
                assert(prev[m] == h);
                assert(prev.contains(h));
            }
            if changed_to(keys, prev, kk) {
                let m = choose|m: int|
                    0 <= m < keys.len() && !prev.contains(keys[m]) && #[trigger] keypad_key(keys[m])
                        == Some(kk as usize);
                assert(keys[m] == h);
                assert(keys.contains(h));
            }
        }
    }
}

fn contains(keys: &Vec<HostKey>, key: HostKey) -> (found: bool)
    ensures
        found == keys@.contains(key),
{
    let mut j: usize = 0;
    while j < keys.len()
        invariant
            j <= keys@.len(),
            forall|m: int| 0 <= m < j ==> keys@[m] != key,
        decreases keys@.len() - j,
    {
        if keys[j] == key {
            return true;
        }
        j += 1;
    }
    false
}

/// Brings the keypad of `cpu` up to date after the host keys that are down
/// went from `prev_keys` to `keys`.
pub fn update_keyboard(cpu: &mut CPU, prev_keys: &Vec<HostKey>, keys: &Vec<HostKey>)
    requires
        old(cpu).wf(),
    ensures
        final(cpu).wf(),
        final(cpu)@ == (Machine {
            keys: keypad_after(old(cpu)@.keys, prev_keys@, keys@),
            ..old(cpu)@
        }),
{
    let ghost before = cpu@;
    let mut j: usize = 0;
    while j < keys.len()
        invariant
            cpu.wf(),
            j <= keys@.len(),
            cpu@ == (Machine { keys: cpu@.keys, ..before }),
            forall|k: int|
                0 <= k < KEY_COUNT ==> #[trigger] cpu@.keys[k] == if changed_to(
                    keys@.take(j as int),
                    prev_keys@,
                    k,
                ) {
                    true
                } else {
                    before.keys[k]
                },
        decreases keys@.len() - j,
    {
        let key_state = keys[j];
        if !contains(prev_keys, key_state) {
            if let Some(key) = map_keys(&key_state) {
                cpu.set_key(key, true);
            }
        }
        proof {
            let t = keys@.take(j + 1);
            assert forall|k: int| 0 <= k < KEY_COUNT implies changed_to(t, prev_keys@, k) == (
            changed_to(keys@.take(j as int), prev_keys@, k) || (!prev_keys@.contains(key_state)
                && keypad_key(key_state) == Some(k as usize))) by {
                if changed_to(t, prev_keys@, k) {
                    let m = choose|m: int|
                        0 <= m < t.len() && !prev_keys@.contains(t[m]) && #[trigger] keypad_key(
                            t[m],
                        ) == Some(k as usize);
                    if m < j {
                        assert(keys@.take(j as int)[m] == t[m]);
                    }
                }
                if changed_to(keys@.take(j as int), prev_keys@, k) {
                    let m = choose|m: int|
                        0 <= m < j && !prev_keys@.contains(keys@.take(j as int)[m])
                            && #[trigger] keypad_key(keys@.take(j as int)[m]) == Some(k as usize);
                    assert(t[m] == keys@.take(j as int)[m]);
                }
                if !prev_keys@.contains(key_state) && keypad_key(key_state) == Some(k as usize) {
                    assert(t[j as int] == key_state);
                }
            }
        }
        j += 1;
    }
    assert(keys@.take(keys@.len() as int) =~= keys@);
    let ghost middle = cpu@;
    let mut j: usize = 0;
    while j < prev_keys.len()
        invariant
            cpu.wf(),
            j <= prev_keys@.len(),
            cpu@ == (Machine { keys: cpu@.keys, ..before }),
            forall|k: int|
                0 <= k < KEY_COUNT ==> #[trigger] cpu@.keys[k] == if changed_to(
                    prev_keys@.take(j as int),
                    keys@,
                    k,
                ) {
                    false
                } else {
                    middle.keys[k]
                },
        decreases prev_keys@.len() - j,
    {
        let key_state = prev_keys[j];
        if !contains(keys, key_state) {
            if let Some(key) = map_keys(&key_state) {
                cpu.set_key(key, false);
            }
        }
        proof {
            let t = prev_keys@.take(j + 1);
            assert forall|k: int| 0 <= k < KEY_COUNT implies changed_to(t, keys@, k) == (
            changed_to(prev_keys@.take(j as int), keys@, k) || (!keys@.contains(key_state)
                && keypad_key(key_state) == Some(k as usize))) by {
                if changed_to(t, keys@, k) {
                    let m = choose|m: int|
                        0 <= m < t.len() && !keys@.contains(t[m]) && #[trigger] keypad_key(t[m])
                            == Some(k as usize);
                    if m < j {
                        assert(prev_keys@.take(j as int)[m] == t[m]);
                    }
                }
                if changed_to(prev_keys@.take(j as int), keys@, k) {
                    let m = choose|m: int|
                        0 <= m < j && !keys@.contains(prev_keys@.take(j as int)[m])
                            && #[trigger] keypad_key(prev_keys@.take(j as int)[m]) == Some(
                            k as usize,
                        );
                    assert(t[m] == prev_keys@.take(j as int)[m]);
                }
                if !keys@.contains(key_state) && keypad_key(key_state) == Some(k as usize) {
                    assert(t[j as int] == key_state);
                }
            }
        }
        j += 1;
    }
    assert(prev_keys@.take(prev_keys@.len() as int) =~= prev_keys@);
    assert(cpu@.keys =~= keypad_after(before.keys, prev_keys@, keys@));
}

} // verus!
