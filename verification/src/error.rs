use vstd::prelude::*;

verus! {

/// The ways the interpreter's front end can fail.
#[derive(Debug)]
pub enum Chip8Error {
    Window,
    LoadingRom,
    ReadingRom,
    ScreenBuffer,
}

} // verus!
