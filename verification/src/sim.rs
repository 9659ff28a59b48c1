//! A scripted peripheral instance.
//!
//! The simulator answers readiness polls from two caller-supplied scripts,
//! one per direction, and records every interaction in an event list. It is
//! the executable witness that the [`Instance`](crate::device::Instance)
//! contract can be met, and the test bench for the transfer engine.

use vstd::prelude::*;

use crate::device::{FrameSize, Instance, ReadStatus, SendStatus};
use crate::mode::Error;
use crate::trace::Event;

verus! {

/// One scripted answer to a send-readiness poll.
#[derive(Clone, Copy, Debug, PartialEq, Eq, Structural)]
pub enum SendScript {
    /// Report the transmit register as still busy.
    Stall,
    /// Accept the offered word.
    Accept,
    /// Report a latched multi-master conflict.
    Fault,
}

/// One scripted answer to a receive-readiness poll.
#[derive(Clone, Copy, Debug, PartialEq, Eq, Structural)]
pub enum ReadScript<W> {
    /// Report that no word is ready yet.
    Stall,
    /// Hand out this received word.
    Word(W),
    /// Report a latched receiver overrun.
    Overrun,
    /// Report a failed hardware integrity check.
    Crc,
}

/// A peripheral instance driven by scripts. Once a script is exhausted the
/// simulator stays ready forever: sends are accepted and reads yield the
/// zero word.
pub struct SimInstance<W> {
    sends: Vec<SendScript>,
    next_send: usize,
    reads: Vec<ReadScript<W>>,
    next_read: usize,
    events: Vec<Event<W>>,
}

impl<W: FrameSize> SimInstance<W> {
    /// A fresh instance with an empty trace.
    pub fn new(sends: Vec<SendScript>, reads: Vec<ReadScript<W>>) -> (r: Self)
        ensures
            r.log() == Seq::<Event<W>>::empty(),
    {
        SimInstance { sends, next_send: 0, reads, next_read: 0, events: Vec::new() }
    }

    /// The recorded trace, for inspection after a run.
    pub fn events(&self) -> (r: &Vec<Event<W>>)
        ensures
            r@ == self.log(),
    {
        &self.events
    }

    /// How much of either script is still unconsumed.
    spec fn remaining(&self) -> nat {
        (if self.next_send <= self.sends@.len() {
            self.sends@.len() - self.next_send
        } else {
            0
        } + if self.next_read <= self.reads@.len() {
            self.reads@.len() - self.next_read
        } else {
            0
        }) as nat
    }
}

impl<W: FrameSize> Instance for SimInstance<W> {
    type Word = W;

    closed spec fn log(&self) -> Seq<Event<W>> {
        self.events@
    }

    closed spec fn poll_budget(&self) -> nat {
        self.remaining()
    }

    fn poll_send(&mut self, word: W) -> (r: SendStatus) {
        let step = if self.next_send < self.sends.len() {
            let s = self.sends[self.next_send];
            self.next_send = self.next_send + 1;
            s
        } else {
            SendScript::Accept
        };
        match step {
            SendScript::Stall => {
                self.events.push(Event::SendBlocked);
                SendStatus::Pending
            },
            SendScript::Accept => {
                self.events.push(Event::Sent(word));
                SendStatus::Accepted
            },
            SendScript::Fault => {
                self.events.push(Event::SendFaulted(Error::ModeFault));
                SendStatus::Faulted(Error::ModeFault)
            },
        }
    }

    fn poll_read(&mut self) -> (r: ReadStatus<W>) {
        let step = if self.next_read < self.reads.len() {
            let s = self.reads[self.next_read];
            self.next_read = self.next_read + 1;
            s
        } else {
            ReadScript::Word(W::zero_word())
        };
        match step {
            ReadScript::Stall => {
                self.events.push(Event::ReadBlocked);
                ReadStatus::Pending
            },
            ReadScript::Word(w) => {
                self.events.push(Event::Received(w));
                ReadStatus::Ready(w)
            },
            ReadScript::Overrun => {
                self.events.push(Event::ReadFaulted(Error::Overrun));
                ReadStatus::Faulted(Error::Overrun)
            },
            ReadScript::Crc => {
                self.events.push(Event::ReadFaulted(Error::Crc));
                ReadStatus::Faulted(Error::Crc)
            },
        }
    }

    fn line_output(&mut self) {
        self.events.push(Event::LineOutput);
    }

    fn line_input(&mut self) {
        self.events.push(Event::LineInput);
    }
}

} // verus!
