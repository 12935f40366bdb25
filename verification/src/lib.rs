//! A CHIP-8 interpreter core: machine state, instruction semantics and the
//! bookkeeping a front end needs (ROM loading, timers, screen buffer).

pub mod chip8;
pub mod error;
pub mod laws;
pub mod model;
mod random;

pub use chip8::Chip8;
pub use error::Chip8Error;
