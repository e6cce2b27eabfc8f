# chip_8

A CHIP-8 interpreter for the terminal.

- `src/` is the verified library:
  - `memory.rs`: the 4 KiB memory (with the built-in font) and the sixteen registers;
  - `cpu.rs`: timers, the processor and its fetch-decode-execute cycle;
    `cpu/semantics.rs` states what one cycle does over a mathematical model of
    the machine, `cpu/laws.rs` proves properties that span instructions;
  - `emu/keyboard.rs`: the keys of the keypad;
  - `ui.rs`, `ui/menu.rs`, `ui/emulator.rs`: the decisions of the front end
    (screen choice, terminal size, ROM menu, host key mapping, clock rates).
- `app/` is the terminal program around it: ratatui drawing, crossterm input,
  device_query key polling, tinyaudio sound and the threads that drive the
  processor and timers.
- `tests/` runs small programs on the processor and exercises the front-end rules.
