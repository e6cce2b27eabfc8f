//! The sixteen keys of the CHIP-8 keypad.
use std::collections::HashMap;

use vstd::prelude::*;

verus! {

/// A key of the hexadecimal keypad.
#[derive(Clone, Copy, PartialEq, Eq, Structural, Hash)]
pub enum Key {
    ZERO,
    ONE,
    TWO,
    THREE,
    FOUR,
    FIVE,
    SIX,
    SEVEN,
    EIGHT,
    NINE,
    A,
    B,
    C,
    D,
    E,
    F,
}

/// The hexadecimal digit a key stands for.
pub open spec fn key_value(k: Key) -> u8 {
    match k {
        Key::ZERO => 0x0,
        Key::ONE => 0x1,
        Key::TWO => 0x2,
        Key::THREE => 0x3,
        Key::FOUR => 0x4,
        Key::FIVE => 0x5,
        Key::SIX => 0x6,
        Key::SEVEN => 0x7,
        Key::EIGHT => 0x8,
        Key::NINE => 0x9,
        Key::A => 0xA,
        Key::B => 0xB,
        Key::C => 0xC,
        Key::D => 0xD,
        Key::E => 0xE,
        Key::F => 0xF,
    }
}

impl From<Key> for u8 {
    fn from(val: Key) -> (v: Self) {
        match val {
            Key::ZERO => 0x0,
            Key::ONE => 0x1,
            Key::TWO => 0x2,
            Key::THREE => 0x3,
            Key::FOUR => 0x4,
            Key::FIVE => 0x5,
            Key::SIX => 0x6,
            Key::SEVEN => 0x7,
            Key::EIGHT => 0x8,
            Key::NINE => 0x9,
            Key::A => 0xA,
            Key::B => 0xB,
            Key::C => 0xC,
            Key::D => 0xD,
            Key::E => 0xE,
            Key::F => 0xF,
        }
    }
}

impl vstd::std_specs::convert::FromSpecImpl<Key> for u8 {
    open spec fn obeys_from_spec() -> bool {
        true
    }

    open spec fn from_spec(v: Key) -> u8 {
        key_value(v)
    }
}

impl Key {
    /// The key for hexadecimal digit `val`.
    pub fn from_u8(val: u8) -> (k: Key)
        requires
            val <= 0xF,
        ensures
            key_value(k) == val,
    {
        match val {
            0x0 => Key::ZERO,
            0x1 => Key::ONE,
            0x2 => Key::TWO,
            0x3 => Key::THREE,
            0x4 => Key::FOUR,
            0x5 => Key::FIVE,
            0x6 => Key::SIX,
            0x7 => Key::SEVEN,
            0x8 => Key::EIGHT,
            0x9 => Key::NINE,
            0xA => Key::A,
            0xB => Key::B,
            0xC => Key::C,
            0xD => Key::D,
            0xE => Key::E,
            _ => Key::F,
        }
    }
}

/// Every key stands for a hexadecimal digit, and distinct keys for distinct
/// digits; with `Key::from_u8`, which gives the key of each digit, the two
/// conversions undo each other.
pub proof fn lemma_key_value_injective(a: Key, b: Key)
    ensures
        key_value(a) <= 0xF,
        key_value(a) == key_value(b) ==> a == b,
{
}

/// Every key of the keypad, each up.
pub fn get_keyboard() -> (keys: HashMap<u8, bool>)
    ensures
        keys@ == Map::new(|k: u8| k <= 0xF, |k: u8| false),
{
    broadcast use vstd::std_specs::hash::group_hash_axioms;

    let mut keys: HashMap<u8, bool> = HashMap::new();
    let mut k: u8 = 0;
    while k < 16
        invariant
            k <= 16,
            keys@ == Map::new(|j: u8| j < k, |j: u8| false),
        decreases 16 - k,
    {
        keys.insert(k, false);
        k += 1;
        assert(keys@ =~= Map::new(|j: u8| j < k, |j: u8| false));
    }
    assert(keys@ =~= Map::new(|j: u8| j <= 0xF, |j: u8| false));
    keys
}

} // verus!
