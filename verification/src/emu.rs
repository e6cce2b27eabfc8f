//! The host side of the keypad.

pub mod keyboard;
