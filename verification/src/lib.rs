//! A verified interpreter core for a small fixed-width instruction set:
//! 16-bit opcodes, 4 KiB of memory, sixteen 8-bit registers, a 64x32
//! one-bit display plane and two 8-bit hardware timers.

pub mod arith;
pub mod cpu;
pub mod display;
