//! A polled serial-bus transfer core.
//!
//! The crate drives one word-at-a-time transfers over a configurable serial
//! peripheral: 8-bit or 16-bit frames, two-line full-duplex or one-line
//! half-duplex wiring, and two generations of hardware-abstraction
//! vocabulary on top of a single transfer engine.
//!
//! The hardware itself stands behind the [`device::Instance`] trait: a
//! readiness primitive that polls the transmit and receive flags one call at
//! a time. Every call on the device appends one event to an abstract trace,
//! and the contracts of the transfer engine state exactly which trace each
//! buffer operation leaves behind.

pub mod device;
pub mod hal_02;
pub mod hal_1;
pub mod mode;
pub mod sim;
pub mod spi;
pub mod trace;
