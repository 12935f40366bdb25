# chip8

A CHIP-8 interpreter whose core is verified with Verus.

- `src/model.rs`: the abstract machine state (`Chip8State`), its well-formedness, and the
  meaning of every instruction (`Chip8State::step`), with `can_step` saying when an
  instruction is known and stays in range.
- `src/chip8.rs`: the executable machine `Chip8`; `execute` is proved to implement `step`,
  `run` draws the random byte for `Cxkk` and then executes.
- `src/laws.rs`: properties across instructions (redrawing erases a sprite, call/return,
  store/load of registers, BCD digits, key waiting, well-formedness is kept).
- `src/random.rs`: the calls into `rand`.
- `app/main.rs`: the window, keyboard, timers and ROM file reading (minifb, clap).

Draws run at most once per shown frame: `set_vblank` marks a frame as shown and each
`Dxyn` consumes it.
