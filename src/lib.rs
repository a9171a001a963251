//! A CHIP-8 interpreter core: memory, display, keypad and the opcode dispatcher,
//! each operation stated against a mathematical model of the machine.

pub mod memory;
pub mod screen;
pub mod keyboard;
pub mod cpu;

