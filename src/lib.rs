//! A CHIP-8 virtual machine: memory, registers, call stack, timers,
//! framebuffer and keypad, advanced one instruction at a time.

pub mod error;
pub mod model;
pub mod chip8;
pub mod sprite;
pub mod laws;

pub use chip8::Chip8;
pub use error::Chip8Error;
