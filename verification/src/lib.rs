//! An emulator core for a small 8-bit virtual machine: a 35-opcode
//! instruction set over a 4096-byte heap, 16 general registers, a 16-entry
//! call stack and a monochrome 64x32 bit-plane display, paced in real time
//! against a 60 Hz hardware-timer rate.

pub mod arch;
pub mod constants;
pub mod mem;
pub mod screen;
pub mod cpu;
