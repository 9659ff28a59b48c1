//! The readiness primitive: the trait through which the transfer engine
//! reaches one configured peripheral instance.
//!
//! A peripheral is polled one flag at a time. Each poll and each half-duplex
//! line switch appends exactly one [`Event`] to the instance's abstract
//! trace, so the engine's contracts can speak about every interaction the
//! hardware saw. A poll that finds the hardware not yet ready consumes one
//! unit of the instance's poll budget: the budget models that, with a
//! correctly configured clock, readiness arrives after boundedly many polls.

use vstd::prelude::*;

use crate::mode::Error;
use crate::trace::Event;

verus! {

/// A frame word: an 8-bit or 16-bit unsigned value. The width is fixed per
/// handle at compile time; there is no mixed-width transfer.
pub trait FrameSize: Copy {
    /// The numeric zero of the word type, used as the filler value that a
    /// full-duplex read-only transfer sends to generate clock pulses.
    spec fn spec_zero() -> Self;

    /// The executable zero word.
    fn zero_word() -> (r: Self)
        ensures
            r == Self::spec_zero(),
    ;
}

impl FrameSize for u8 {
    open spec fn spec_zero() -> u8 {
        0u8
    }

    fn zero_word() -> u8 {
        0u8
    }
}

impl FrameSize for u16 {
    open spec fn spec_zero() -> u16 {
        0u16
    }

    fn zero_word() -> u16 {
        0u16
    }
}

/// A run of filler words: what a full-duplex read-only transfer puts on the
/// wire to generate its clock pulses.
pub open spec fn zeros<W: FrameSize>(n: nat) -> Seq<W> {
    Seq::new(n, |i: int| W::spec_zero())
}

/// Outcome of one send-readiness poll.
#[derive(Clone, Copy, Debug, PartialEq, Eq, Structural)]
pub enum SendStatus {
    /// The transmit register is still busy; the word was not accepted.
    Pending,
    /// The word was accepted into hardware.
    Accepted,
    /// A fault flag was latched; reading the status register cleared it.
    Faulted(Error),
}

/// Outcome of one receive-readiness poll.
#[derive(Clone, Copy, Debug, PartialEq, Eq, Structural)]
pub enum ReadStatus<W> {
    /// No received word is ready yet.
    Pending,
    /// A received word was read out of the data register.
    Ready(W),
    /// A fault flag was latched; reading the status register cleared it.
    Faulted(Error),
}

/// One configured peripheral instance.
///
/// An implementation answers single-word readiness polls and switches the
/// half-duplex line direction. Its abstract state is the trace of events it
/// has seen ([`Instance::log`]) and a budget bounding how often it may still
/// answer "not ready" ([`Instance::poll_budget`]).
///
/// The contracts pin the fault vocabulary to what the hardware exposes: a
/// send poll can fault only with a multi-master conflict, a receive poll
/// only with an overrun or an integrity-check failure.
pub trait Instance: Sized {
    /// The frame width this instance was configured with.
    type Word: FrameSize;

    /// The trace of every interaction the instance has seen.
    spec fn log(&self) -> Seq<Event<Self::Word>>;

    /// How often the instance may still answer "not ready". Each pending
    /// poll strictly decreases it, which makes every spin loop around the
    /// primitive terminate.
    spec fn poll_budget(&self) -> nat;

    /// Poll the transmit-readiness flag, offering `word`.
    fn poll_send(&mut self, word: Self::Word) -> (r: SendStatus)
        ensures
            match r {
                SendStatus::Pending => {
                    &&& final(self).log() == old(self).log().push(Event::SendBlocked)
                    &&& final(self).poll_budget() < old(self).poll_budget()
                },
                SendStatus::Accepted => final(self).log() == old(self).log().push(
                    Event::Sent(word),
                ),
                SendStatus::Faulted(e) => e is ModeFault && final(self).log() == old(
                    self,
                ).log().push(Event::SendFaulted(e)),
            },
    ;

    /// Poll the receive-readiness flag.
    fn poll_read(&mut self) -> (r: ReadStatus<Self::Word>)
        ensures
            match r {
                ReadStatus::Pending => {
                    &&& final(self).log() == old(self).log().push(Event::ReadBlocked)
                    &&& final(self).poll_budget() < old(self).poll_budget()
                },
                ReadStatus::Ready(w) => final(self).log() == old(self).log().push(
                    Event::Received(w),
                ),
                ReadStatus::Faulted(e) => (e is Overrun || e is Crc) && final(self).log() == old(
                    self,
                ).log().push(Event::ReadFaulted(e)),
            },
    ;

    /// Configure the single half-duplex data line as transmit-only.
    fn line_output(&mut self)
        ensures
            final(self).log() == old(self).log().push(Event::LineOutput),
            final(self).poll_budget() == old(self).poll_budget(),
    ;

    /// Configure the single half-duplex data line as receive-only.
    fn line_input(&mut self)
        ensures
            final(self).log() == old(self).log().push(Event::LineInput),
            final(self).poll_budget() == old(self).poll_budget(),
    ;
}

} // verus!
