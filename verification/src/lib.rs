//! A verified CHIP-8 interpreter core: registers, memory, stack, timers,
//! the 35-instruction fetch-decode-execute engine, and the XOR sprite
//! video buffer.  Rendering, key input and program-file loading are the
//! host's business; the core exchanges plain values with it.

pub mod cpu;
pub mod display;
pub mod keypad;
