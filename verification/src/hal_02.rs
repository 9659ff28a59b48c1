//! Compatibility vocabulary of the older hardware-abstraction generation.
//!
//! This generation speaks about clock timing with its own polarity, phase
//! and mode types. The types here carry that vocabulary; converting to the
//! core's internal [`mode`] types and back is total, panic-free and
//! lossless over the four polarity-by-phase combinations, which the
//! round-trip lemmas at the bottom prove.

use vstd::prelude::*;

use crate::mode;

verus! {

/// The older generation's clock polarity encoding.
#[derive(Clone, Copy, Debug, PartialEq, Eq, Structural)]
pub enum Polarity {
    IdleLow,
    IdleHigh,
}

/// The older generation's clock phase encoding.
#[derive(Clone, Copy, Debug, PartialEq, Eq, Structural)]
pub enum Phase {
    CaptureOnFirstTransition,
    CaptureOnSecondTransition,
}

/// The older generation's bus mode encoding.
#[derive(Clone, Copy, Debug, PartialEq, Eq, Structural)]
pub struct Mode {
    pub polarity: Polarity,
    pub phase: Phase,
}

impl Polarity {
    /// The core polarity this encoding stands for.
    pub open spec fn spec_to_core(self) -> mode::Polarity {
        match self {
            Polarity::IdleLow => mode::Polarity::IdleLow,
            Polarity::IdleHigh => mode::Polarity::IdleHigh,
        }
    }

    /// This generation's encoding of a core polarity.
    pub open spec fn spec_of_core(p: mode::Polarity) -> Polarity {
        match p {
            mode::Polarity::IdleLow => Polarity::IdleLow,
            mode::Polarity::IdleHigh => Polarity::IdleHigh,
        }
    }

    /// Convert into the core's polarity.
    pub fn to_core(self) -> (r: mode::Polarity)
        ensures
            r == self.spec_to_core(),
    {
        match self {
            Polarity::IdleLow => mode::Polarity::IdleLow,
            Polarity::IdleHigh => mode::Polarity::IdleHigh,
        }
    }

    /// Convert out of the core's polarity.
    pub fn of_core(p: mode::Polarity) -> (r: Self)
        ensures
            r == Self::spec_of_core(p),
    {
        match p {
            mode::Polarity::IdleLow => Polarity::IdleLow,
            mode::Polarity::IdleHigh => Polarity::IdleHigh,
        }
    }
}

impl Phase {
    /// The core phase this encoding stands for.
    pub open spec fn spec_to_core(self) -> mode::Phase {
        match self {
            Phase::CaptureOnFirstTransition => mode::Phase::CaptureOnFirstTransition,
            Phase::CaptureOnSecondTransition => mode::Phase::CaptureOnSecondTransition,
        }
    }

    /// This generation's encoding of a core phase.
    pub open spec fn spec_of_core(p: mode::Phase) -> Phase {
        match p {
            mode::Phase::CaptureOnFirstTransition => Phase::CaptureOnFirstTransition,
            mode::Phase::CaptureOnSecondTransition => Phase::CaptureOnSecondTransition,
        }
    }

    /// Convert into the core's phase.
    pub fn to_core(self) -> (r: mode::Phase)
        ensures
            r == self.spec_to_core(),
    {
        match self {
            Phase::CaptureOnFirstTransition => mode::Phase::CaptureOnFirstTransition,
            Phase::CaptureOnSecondTransition => mode::Phase::CaptureOnSecondTransition,
        }
    }

    /// Convert out of the core's phase.
    pub fn of_core(p: mode::Phase) -> (r: Self)
        ensures
            r == Self::spec_of_core(p),
    {
        match p {
            mode::Phase::CaptureOnFirstTransition => Phase::CaptureOnFirstTransition,
            mode::Phase::CaptureOnSecondTransition => Phase::CaptureOnSecondTransition,
        }
    }
}

impl Mode {
    /// The core mode this encoding stands for.
    pub open spec fn spec_to_core(self) -> mode::Mode {
        mode::Mode { polarity: self.polarity.spec_to_core(), phase: self.phase.spec_to_core() }
    }

    /// This generation's encoding of a core mode.
    pub open spec fn spec_of_core(m: mode::Mode) -> Mode {
        Mode {
            polarity: Polarity::spec_of_core(m.polarity),
            phase: Phase::spec_of_core(m.phase),
        }
    }

    /// Convert into the core's mode.
    pub fn to_core(self) -> (r: mode::Mode)
        ensures
            r == self.spec_to_core(),
    {
        mode::Mode { polarity: self.polarity.to_core(), phase: self.phase.to_core() }
    }

    /// Convert out of the core's mode.
    pub fn of_core(m: mode::Mode) -> (r: Self)
        ensures
            r == Self::spec_of_core(m),
    {
        Mode { polarity: Polarity::of_core(m.polarity), phase: Phase::of_core(m.phase) }
    }
}

/// Converting any of this generation's four mode encodings to the core's
/// internal mode and back yields the original encoding.
pub proof fn lemma_mode_round_trip(m: Mode)
    ensures
        Mode::spec_of_core(m.spec_to_core()) == m,
{
}

/// Converting any core mode out to this generation's encoding and back
/// yields the original core mode.
pub proof fn lemma_core_mode_round_trip(c: mode::Mode)
    ensures
        Mode::spec_of_core(c).spec_to_core() == c,
{
}

} // verus!
