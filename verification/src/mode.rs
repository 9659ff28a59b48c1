//! The core's own timing vocabulary: clock polarity, clock phase, and the
//! combined bus mode, together with the hardware fault taxonomy.

use vstd::prelude::*;

verus! {

/// Idle level of the clock line.
#[derive(Clone, Copy, Debug, PartialEq, Eq, Structural)]
pub enum Polarity {
    /// The clock line rests low between frames.
    IdleLow,
    /// The clock line rests high between frames.
    IdleHigh,
}

/// Which clock transition captures data.
#[derive(Clone, Copy, Debug, PartialEq, Eq, Structural)]
pub enum Phase {
    /// Data is captured on the first transition of each clock cycle.
    CaptureOnFirstTransition,
    /// Data is captured on the second transition of each clock cycle.
    CaptureOnSecondTransition,
}

/// An immutable snapshot of the bus timing: one of the four
/// polarity-by-phase combinations.
#[derive(Clone, Copy, Debug, PartialEq, Eq, Structural)]
pub struct Mode {
    pub polarity: Polarity,
    pub phase: Phase,
}

/// The only failure information the hardware exposes. Every fault is
/// terminal for the word in progress; no layer of this crate retries.
#[derive(Clone, Copy, Debug, PartialEq, Eq, Structural)]
pub enum Error {
    /// Receiver data arrived before the previous word was read out.
    Overrun,
    /// A multi-master conflict was detected on the bus.
    ModeFault,
    /// The optional hardware integrity check failed.
    Crc,
}

} // verus!
