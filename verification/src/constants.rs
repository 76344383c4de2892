//! Fixed sizes of the machine: register count, heap and stack sizes, the
//! reset vector, the hardware-timer rate, and the display dimensions.

use vstd::prelude::*;

verus! {

/// Number of general-purpose 8-bit registers.
pub const NUM_REGS: usize = 16;

/// Index of the flags register `V[15]` ("VF").
pub const LAST_REG: usize = 15;

/// Size of the byte-addressable heap.
pub const HEAP_SIZE: usize = 4096;

/// Capacity of the return-address stack.
pub const STACK_SIZE: usize = 16;

/// Address at which ROM bytes are loaded and execution begins.
pub const RESET_VECTOR: u16 = 512;

/// Rate of the two hardware countdown timers, in decrements per second.
pub const TIMER_HZ: u64 = 60;

/// Width of the display in pixels.
pub const WIDTH: usize = 64;

/// Height of the display in pixels.
pub const HEIGHT: usize = 32;

/// Number of pixels of the display bit-plane.
pub const PIXELS: usize = 2048;

} // verus!
