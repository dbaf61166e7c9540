//! A CHIP-8 virtual machine: instruction decoding, the fetch/execute engine,
//! the XOR framebuffer, the keypad and the 60 Hz timer clock.
//!
//! The machine never touches a window, a keyboard or a clock itself. A host
//! hands it plain values (the keys that are held, a random byte, the time that
//! has passed) and learns from each step whether the display has to be
//! presented again.
//!
//! `machine` holds the machine as a mathematical value and says what every
//! instruction does to it; `chip` is the executable machine, proved to do
//! exactly that.

pub mod alu;
pub mod chip;
pub mod display;
pub mod error;
pub mod io;
pub mod keypad;
pub mod machine;
pub mod opcode;
pub mod stack;
pub mod timer;
