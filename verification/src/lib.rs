//! A CHIP-8 interpreter: memory, registers, timers and the instruction cycle,
//! with the rules of the keypad and of the ROM menu that drive it.

pub mod cpu;
pub mod emu;
pub mod memory;
pub mod ui;
