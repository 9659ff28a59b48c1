//! Compatibility vocabulary of the newer hardware-abstraction generation.
//!
//! Besides its own clock-timing encoding, this generation classifies
//! failures into a shared error-kind vocabulary. The core's three fault
//! variants map onto it one by one, except that the integrity-check fault
//! has no dedicated kind in this generation and maps to the generic one.

use vstd::prelude::*;

use crate::mode;
use crate::mode::Error;

verus! {

/// The newer generation's clock polarity encoding.
#[derive(Clone, Copy, Debug, PartialEq, Eq, Structural)]
pub enum Polarity {
    IdleLow,
    IdleHigh,
}

/// The newer generation's clock phase encoding.
#[derive(Clone, Copy, Debug, PartialEq, Eq, Structural)]
pub enum Phase {
    CaptureOnFirstTransition,
    CaptureOnSecondTransition,
}

/// The newer generation's bus mode encoding.
#[derive(Clone, Copy, Debug, PartialEq, Eq, Structural)]
pub struct Mode {
    pub polarity: Polarity,
    pub phase: Phase,
}

/// The newer generation's error classification, restricted to the kinds
/// this core can produce.
#[derive(Clone, Copy, Debug, PartialEq, Eq, Structural)]
pub enum ErrorKind {
    /// Data was lost: a word arrived before the previous one was read.
    Overrun,
    /// A multi-master conflict was detected.
    ModeFault,
    /// A fault with no dedicated kind in this generation.
    Other,
}

/// The kind this generation assigns to each core fault.
pub open spec fn spec_kind(e: Error) -> ErrorKind {
    match e {
        Error::Overrun => ErrorKind::Overrun,
        Error::ModeFault => ErrorKind::ModeFault,
        Error::Crc => ErrorKind::Other,
    }
}

impl Error {
    /// Classify this fault in the newer generation's vocabulary. The
    /// integrity-check fault maps to the generic kind, which this
    /// generation reserves for errors without a kind of their own.
    pub fn kind(&self) -> (r: ErrorKind)
        ensures
            r == spec_kind(*self),
    {
        match self {
            Error::Overrun => ErrorKind::Overrun,
            Error::ModeFault => ErrorKind::ModeFault,
            Error::Crc => ErrorKind::Other,
        }
    }
}

impl Polarity {
    /// The core polarity this encoding stands for.
    pub open spec fn spec_to_core(self) -> mode::Polarity {
        match self {
            Polarity::IdleLow => mode::Polarity::IdleLow,
            Polarity::IdleHigh => mode::Polarity::IdleHigh,
        }
    }

    /// This generation's encoding of a core polarity.
    pub open spec fn spec_of_core(p: mode::Polarity) -> Polarity {
        match p {
            mode::Polarity::IdleLow => Polarity::IdleLow,
            mode::Polarity::IdleHigh => Polarity::IdleHigh,
        }
    }

    /// Convert into the core's polarity.
    pub fn to_core(self) -> (r: mode::Polarity)
        ensures
            r == self.spec_to_core(),
    {
        match self {
            Polarity::IdleLow => mode::Polarity::IdleLow,
            Polarity::IdleHigh => mode::Polarity::IdleHigh,
        }
    }

    /// Convert out of the core's polarity.
    pub fn of_core(p: mode::Polarity) -> (r: Self)
        ensures
            r == Self::spec_of_core(p),
    {
        match p {
            mode::Polarity::IdleLow => Polarity::IdleLow,
            mode::Polarity::IdleHigh => Polarity::IdleHigh,
        }
    }
}

impl Phase {
    /// The core phase this encoding stands for.
    pub open spec fn spec_to_core(self) -> mode::Phase {
        match self {
            Phase::CaptureOnFirstTransition => mode::Phase::CaptureOnFirstTransition,
            Phase::CaptureOnSecondTransition => mode::Phase::CaptureOnSecondTransition,
        }
    }

    /// This generation's encoding of a core phase.
    pub open spec fn spec_of_core(p: mode::Phase) -> Phase {
        match p {
            mode::Phase::CaptureOnFirstTransition => Phase::CaptureOnFirstTransition,
            mode::Phase::CaptureOnSecondTransition => Phase::CaptureOnSecondTransition,
        }
    }

    /// Convert into the core's phase.
    pub fn to_core(self) -> (r: mode::Phase)
        ensures
            r == self.spec_to_core(),
    {
        match self {
            Phase::CaptureOnFirstTransition => mode::Phase::CaptureOnFirstTransition,
            Phase::CaptureOnSecondTransition => mode::Phase::CaptureOnSecondTransition,
        }
    }

    /// Convert out of the core's phase.
    pub fn of_core(p: mode::Phase) -> (r: Self)
        ensures
            r == Self::spec_of_core(p),
    {
        match p {
            mode::Phase::CaptureOnFirstTransition => Phase::CaptureOnFirstTransition,
            mode::Phase::CaptureOnSecondTransition => Phase::CaptureOnSecondTransition,
        }
    }
}

impl Mode {
    /// The core mode this encoding stands for.
    pub open spec fn spec_to_core(self) -> mode::Mode {
        mode::Mode { polarity: self.polarity.spec_to_core(), phase: self.phase.spec_to_core() }
    }

    /// This generation's encoding of a core mode.
    pub open spec fn spec_of_core(m: mode::Mode) -> Mode {
        Mode {
            polarity: Polarity::spec_of_core(m.polarity),
            phase: Phase::spec_of_core(m.phase),
        }
    }

    /// Convert into the core's mode.
    pub fn to_core(self) -> (r: mode::Mode)
        ensures
            r == self.spec_to_core(),
    {
        mode::Mode { polarity: self.polarity.to_core(), phase: self.phase.to_core() }
    }

    /// Convert out of the core's mode.
    pub fn of_core(m: mode::Mode) -> (r: Self)
        ensures
            r == Self::spec_of_core(m),
    {
        Mode { polarity: Polarity::of_core(m.polarity), phase: Phase::of_core(m.phase) }
    }
}

/// Converting any of this generation's four mode encodings to the core's
/// internal mode and back yields the original encoding.
pub proof fn lemma_mode_round_trip(m: Mode)
    ensures
        Mode::spec_of_core(m.spec_to_core()) == m,
{
}

/// Converting any core mode out to this generation's encoding and back
/// yields the original core mode.
pub proof fn lemma_core_mode_round_trip(c: mode::Mode)
    ensures
        Mode::spec_of_core(c).spec_to_core() == c,
{
}

} // verus!
