//! Device capability interfaces the execution engine drives: a display
//! backend, a keyboard, a buzzer and a wall-clock time source. Each is
//! implemented outside the core (a graphical backend, or a test double) and
//! accessed only from the single execution thread.

use vstd::prelude::*;
use crate::screen::Screen;

verus! {

/// A read-only view of consecutive heap bytes, each byte one 8-pixel-wide
/// sprite row, most-significant bit leftmost.
pub struct Sprite<'a>(pub &'a [u8]);

impl<'a> View for Sprite<'a> {
    type V = Seq<u8>;

    open spec fn view(&self) -> Seq<u8> {
        self.0@
    }
}

/// A rendering backend. The engine owns the bit-plane itself (see
/// [`Screen`]); the backend is only told to put it on a surface, and to
/// reset whatever it keeps when the machine resets.
pub trait Display {
    /// Render the given bit-plane.
    fn present(&mut self, screen: &Screen);

    /// Forget any backend state; called on every machine reset.
    fn reset(&mut self);
}

/// A 16-key keypad with two edge-triggered out-of-band signals.
pub trait Keyboard {
    /// Whether the given key is currently held down.
    fn pressed(&mut self, key: u8) -> bool;

    /// Block until a key is pressed and return it.
    fn wait_key(&mut self) -> (r: u8)
        ensures
            r < 16,
    ;

    /// Whether a reset was requested since the last call; cleared on read.
    fn reset_signal(&mut self) -> bool;

    /// Whether power-off was requested since the last call; cleared on read.
    fn power_off_signal(&mut self) -> bool;

    /// Forget any pressed-key state; called on every machine reset.
    fn reset(&mut self);
}

/// An audio device that plays a tone when told to.
pub trait Buzzer {
    /// Start a tone.
    fn start(&mut self);

    /// Stop the tone.
    fn stop(&mut self);

    /// Return to the initial state; called on every machine reset.
    fn reset(&mut self);
}

/// A wall-clock time source, injectable so that pacing can be driven by a
/// simulated clock in tests.
pub trait Clock {
    /// The current instant, in nanoseconds from an arbitrary fixed origin.
    fn now(&mut self) -> u64;

    /// Sleep for at least the given number of milliseconds, then return the
    /// current instant. `from` is the instant the caller last observed; an
    /// implementation must report time no earlier than it, and strictly
    /// after it whenever that is representable, which any real clock does
    /// across a sleep of a millisecond or more.
    fn sleep_at_least(&mut self, millis: u64, from: u64) -> (r: u64)
        ensures
            r >= from,
            from < u64::MAX ==> r > from,
    ;
}

/// A source of uniformly distributed random bytes.
pub trait RandomSource {
    /// Draw one byte; nothing is promised of its value.
    fn random_byte(&mut self) -> u8;
}

/// The system's own entropy, for ordinary use outside tests.
pub struct SystemRandom;

/// Relies on rand::random: one uniformly distributed byte from the
/// thread-local generator. Nothing can be promised of its value.
#[verifier::external_body]
fn system_random_byte() -> u8 {
    rand::random::<u8>()
}

impl RandomSource for SystemRandom {
    fn random_byte(&mut self) -> u8 {
        system_random_byte()
    }
}

} // verus!
