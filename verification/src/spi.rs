//! The bus handle and its transfer engine.
//!
//! [`Spi`] owns one configured peripheral instance. The `BIDI` flag selects
//! the wire topology at compile time: `false` is two-line full-duplex,
//! `true` is one-line half-duplex. Every contract is stated over the
//! instance's event trace: the raw trace grows monotonically, and the
//! completed subsequence (fruitless polls removed) takes exactly the shape
//! that the selected transfer requires.

use vstd::prelude::*;

use crate::device::{zeros, FrameSize, Instance, ReadStatus, SendStatus};
use crate::mode::Error;
use crate::trace::{
    completed, drained_duplex, duplex, is_read_poll, is_send_poll, lemma_completed_push,
    lemma_prefix_index, lemma_prefix_trans, receives, sends, Event,
};

verus! {

/// Outcome vocabulary of the non-blocking surface: either the hardware is
/// not ready yet, or a real fault was latched.
#[derive(Clone, Copy, Debug, PartialEq, Eq, Structural)]
pub enum NbError {
    /// The operation would block; poll again later.
    WouldBlock,
    /// A fault flag was latched.
    Other(Error),
}

/// One step of a heterogeneous batch: either write a buffer out, or
/// exchange a buffer in place.
#[derive(Clone, Debug, PartialEq, Eq)]
pub enum Operation<W> {
    /// Send every word of the buffer; the buffer is left unchanged.
    Write(Vec<W>),
    /// Symmetric transfer: send every word and overwrite it with the word
    /// that arrived in exchange.
    Transfer(Vec<W>),
}

/// How many completed events one fully executed batch step contributes:
/// a send and a receive per word, whether or not the received word is kept.
pub open spec fn op_trace_len<W>(op: Operation<W>) -> int {
    match op {
        Operation::Write(a) => 2 * a@.len() as int,
        Operation::Transfer(b) => 2 * b@.len() as int,
    }
}

/// One batch step ran to completion: `nop` is the step's buffer afterwards
/// and `tr` the completed events it contributed.
pub open spec fn op_done<W>(op: Operation<W>, nop: Operation<W>, tr: Seq<Event<W>>) -> bool {
    match (op, nop) {
        (Operation::Write(a), Operation::Write(a2)) => a2@ == a@ && drained_duplex(a@, tr),
        (Operation::Transfer(b), Operation::Transfer(b2)) => b2@.len() == b@.len() && tr == duplex(
            b@,
            b2@,
        ),
        _ => false,
    }
}

/// One batch step failed part way through: its buffer is touched exactly up
/// to the failing word, and `tr` ends in the fault that stopped it.
pub open spec fn op_partial<W>(
    op: Operation<W>,
    nop: Operation<W>,
    tr: Seq<Event<W>>,
    e: Error,
) -> bool {
    match (op, nop) {
        (Operation::Write(a), Operation::Write(a2)) => a2@ == a@ && exists|j: int, rx: Seq<W>|
            0 <= j < a@.len() && rx.len() == j && ((e is ModeFault && tr == duplex(
                a@.take(j),
                rx,
            ).push(Event::SendFaulted(e))) || ((e is Overrun || e is Crc) && tr == duplex(
                a@.take(j),
                rx,
            ) + seq![Event::Sent(a@[j]), Event::ReadFaulted(e)])),
        (Operation::Transfer(b), Operation::Transfer(b2)) => b2@.len() == b@.len() && exists|j: int|
            0 <= j < b@.len() && b2@.skip(j) == b@.skip(j) && ((e is ModeFault && tr == duplex(
                b@.take(j),
                b2@.take(j),
            ).push(Event::SendFaulted(e))) || ((e is Overrun || e is Crc) && tr == duplex(
                b@.take(j),
                b2@.take(j),
            ) + seq![Event::Sent(b@[j]), Event::ReadFaulted(e)])),
        _ => false,
    }
}

/// The whole batch ran to completion, strictly in order: `ce` decomposes
/// into one completed slice per step, each of the shape [`op_done`] asks.
pub open spec fn ops_match<W>(
    old_ops: Seq<Operation<W>>,
    new_ops: Seq<Operation<W>>,
    ce: Seq<Event<W>>,
) -> bool
    decreases old_ops.len(),
{
    if old_ops.len() == 0 {
        new_ops.len() == 0 && ce.len() == 0
    } else if new_ops.len() != old_ops.len() {
        false
    } else {
        let h = op_trace_len(old_ops[0]);
        &&& ce.len() >= h
        &&& op_done(old_ops[0], new_ops[0], ce.take(h))
        &&& ops_match(old_ops.skip(1), new_ops.skip(1), ce.skip(h))
    }
}

/// [`ops_match`] grows by one step at the back.
proof fn lemma_ops_match_push<W>(
    old_ops: Seq<Operation<W>>,
    new_ops: Seq<Operation<W>>,
    ce: Seq<Event<W>>,
    op: Operation<W>,
    nop: Operation<W>,
    tr: Seq<Event<W>>,
)
    requires
        ops_match(old_ops, new_ops, ce),
        op_done(op, nop, tr),
        tr.len() == op_trace_len(op),
    ensures
        ops_match(old_ops.push(op), new_ops.push(nop), ce + tr),
    decreases old_ops.len(),
{
    if old_ops.len() == 0 {
        assert(ce + tr =~= tr);
        assert((ce + tr).take(op_trace_len(op)) =~= tr);
        assert((ce + tr).skip(op_trace_len(op)) =~= Seq::<Event<W>>::empty());
        assert(old_ops.push(op).skip(1) =~= Seq::<Operation<W>>::empty());
        assert(new_ops.push(nop).skip(1) =~= Seq::<Operation<W>>::empty());
        assert(ops_match(
            Seq::<Operation<W>>::empty(),
            Seq::<Operation<W>>::empty(),
            Seq::<Event<W>>::empty(),
        ));
    } else {
        let h = op_trace_len(old_ops[0]);
        assert((ce + tr).take(h) =~= ce.take(h));
        assert((ce + tr).skip(h) =~= ce.skip(h) + tr);
        assert(old_ops.push(op).skip(1) =~= old_ops.skip(1).push(op));
        assert(new_ops.push(nop).skip(1) =~= new_ops.skip(1).push(nop));
        lemma_ops_match_push(old_ops.skip(1), new_ops.skip(1), ce.skip(h), op, nop, tr);
    }
}

/// A bus handle: one exclusively owned peripheral instance bound to a
/// compile-time wire topology.
pub struct Spi<D, const BIDI: bool> {
    device: D,
}

impl<D: Instance, const BIDI: bool> Spi<D, BIDI> {
    /// The trace of every interaction the underlying instance has seen.
    pub closed spec fn log(&self) -> Seq<Event<D::Word>> {
        self.device.log()
    }

    /// How often the instance may still answer "not ready".
    pub closed spec fn budget(&self) -> nat {
        self.device.poll_budget()
    }

    /// Wrap an already-initialized peripheral instance.
    pub fn new(device: D) -> (r: Self)
        ensures
            r.log() == device.log(),
    {
        Spi { device }
    }

    /// Give the peripheral instance back, for example to inspect its trace.
    pub fn release(self) -> (r: D)
        ensures
            r.log() == self.log(),
    {
        self.device
    }

    /// Attempt to start transmission of one word: the transmit half of the
    /// readiness primitive. Repeated polling while the hardware is busy has
    /// no effect beyond the recorded poll.
    pub fn check_send(&mut self, word: D::Word) -> (r: Result<(), NbError>)
        ensures
            match r {
                Ok(()) => final(self).log() == old(self).log().push(Event::Sent(word)),
                Err(NbError::WouldBlock) => final(self).log() == old(self).log().push(
                    Event::SendBlocked,
                ) && final(self).budget() < old(self).budget(),
                Err(NbError::Other(e)) => e is ModeFault && final(self).log() == old(
                    self,
                ).log().push(Event::SendFaulted(e)),
            },
    {
        match self.device.poll_send(word) {
            SendStatus::Pending => Err(NbError::WouldBlock),
            SendStatus::Accepted => Ok(()),
            SendStatus::Faulted(e) => Err(NbError::Other(e)),
        }
    }

    /// Attempt to retrieve one received word: the receive half of the
    /// readiness primitive.
    pub fn check_read(&mut self) -> (r: Result<D::Word, NbError>)
        ensures
            match r {
                Ok(w) => final(self).log() == old(self).log().push(Event::Received(w)),
                Err(NbError::WouldBlock) => final(self).log() == old(self).log().push(
                    Event::ReadBlocked,
                ) && final(self).budget() < old(self).budget(),
                Err(NbError::Other(e)) => (e is Overrun || e is Crc) && final(self).log() == old(
                    self,
                ).log().push(Event::ReadFaulted(e)),
            },
    {
        match self.device.poll_read() {
            ReadStatus::Pending => Err(NbError::WouldBlock),
            ReadStatus::Ready(w) => Ok(w),
            ReadStatus::Faulted(e) => Err(NbError::Other(e)),
        }
    }

    /// Switch the half-duplex line to drive before a send.
    fn bidi_output(&mut self)
        ensures
            final(self).log() == old(self).log().push(Event::LineOutput),
            final(self).budget() == old(self).budget(),
    {
        self.device.line_output();
    }

    /// Switch the half-duplex line to listen before a receive.
    fn bidi_input(&mut self)
        ensures
            final(self).log() == old(self).log().push(Event::LineInput),
            final(self).budget() == old(self).budget(),
    {
        self.device.line_input();
    }

    /// Non-blocking single-word send. In half-duplex mode the line is
    /// re-asserted as output first, because the hardware does not remember
    /// the last-commanded direction reliably.
    pub fn nb_send(&mut self, word: D::Word) -> (r: Result<(), NbError>)
        ensures
            ({
                let base = if BIDI {
                    old(self).log().push(Event::LineOutput)
                } else {
                    old(self).log()
                };
                match r {
                    Ok(()) => final(self).log() == base.push(Event::Sent(word)),
                    Err(NbError::WouldBlock) => final(self).log() == base.push(Event::SendBlocked)
                        && final(self).budget() < old(self).budget(),
                    Err(NbError::Other(e)) => e is ModeFault && final(self).log() == base.push(
                        Event::SendFaulted(e),
                    ),
                }
            }),
    {
        if BIDI {
            self.bidi_output();
        }
        self.check_send(word)
    }

    /// Non-blocking single-word read. In half-duplex mode the line is
    /// re-asserted as input first.
    pub fn nb_read(&mut self) -> (r: Result<D::Word, NbError>)
        ensures
            ({
                let base = if BIDI {
                    old(self).log().push(Event::LineInput)
                } else {
                    old(self).log()
                };
                match r {
                    Ok(w) => final(self).log() == base.push(Event::Received(w)),
                    Err(NbError::WouldBlock) => final(self).log() == base.push(Event::ReadBlocked)
                        && final(self).budget() < old(self).budget(),
                    Err(NbError::Other(e)) => (e is Overrun || e is Crc) && final(self).log()
                        == base.push(Event::ReadFaulted(e)),
                }
            }),
    {
        if BIDI {
            self.bidi_input();
        }
        self.check_read()
    }

    /// Spin until one word is accepted into hardware: the blocking bridge
    /// over the transmit half. There is no timeout and no back-off; the
    /// spin is bounded by the instance's poll budget.
    #[verifier::loop_isolation(false)]
    fn block_send(&mut self, word: D::Word) -> (r: Result<(), Error>)
        ensures
            old(self).log().is_prefix_of(final(self).log()),
            forall|i: int|
                old(self).log().len() <= i < final(self).log().len() ==> is_send_poll(
                    #[trigger] final(self).log()[i],
                ),
            match r {
                Ok(()) => completed(final(self).log()) == completed(old(self).log()).push(
                    Event::Sent(word),
                ),
                Err(e) => e is ModeFault && completed(final(self).log()) == completed(
                    old(self).log(),
                ).push(Event::SendFaulted(e)),
            },
    {
        loop
            invariant
                old(self).log().is_prefix_of(self.log()),
                completed(self.log()) == completed(old(self).log()),
                forall|i: int|
                    old(self).log().len() <= i < self.log().len() ==> is_send_poll(
                        #[trigger] self.log()[i],
                    ),
            decreases self.budget(),
        {
            let ghost pre = self.log();
            match self.check_send(word) {
                Ok(()) => {
                    proof {
                        lemma_completed_push(pre, Event::Sent(word));
                    }
                    return Ok(());
                },
                Err(NbError::WouldBlock) => {
                    proof {
                        lemma_completed_push(pre, Event::SendBlocked);
                    }
                },
                Err(NbError::Other(e)) => {
                    proof {
                        lemma_completed_push(pre, Event::SendFaulted(e));
                    }
                    return Err(e);
                },
            }
        }
    }

    /// Spin until one received word is available: the blocking bridge over
    /// the receive half.
    #[verifier::loop_isolation(false)]
    fn block_read(&mut self) -> (r: Result<D::Word, Error>)
        ensures
            old(self).log().is_prefix_of(final(self).log()),
            forall|i: int|
                old(self).log().len() <= i < final(self).log().len() ==> is_read_poll(
                    #[trigger] final(self).log()[i],
                ),
            match r {
                Ok(w) => completed(final(self).log()) == completed(old(self).log()).push(
                    Event::Received(w),
                ),
                Err(e) => (e is Overrun || e is Crc) && completed(final(self).log()) == completed(
                    old(self).log(),
                ).push(Event::ReadFaulted(e)),
            },
    {
        loop
            invariant
                old(self).log().is_prefix_of(self.log()),
                completed(self.log()) == completed(old(self).log()),
                forall|i: int|
                    old(self).log().len() <= i < self.log().len() ==> is_read_poll(
                        #[trigger] self.log()[i],
                    ),
            decreases self.budget(),
        {
            let ghost pre = self.log();
            match self.check_read() {
                Ok(w) => {
                    proof {
                        lemma_completed_push(pre, Event::Received(w));
                    }
                    return Ok(w);
                },
                Err(NbError::WouldBlock) => {
                    proof {
                        lemma_completed_push(pre, Event::ReadBlocked);
                    }
                },
                Err(NbError::Other(e)) => {
                    proof {
                        lemma_completed_push(pre, Event::ReadFaulted(e));
                    }
                    return Err(e);
                },
            }
        }
    }

    /// The hardware has no software-visible write buffering beyond the
    /// per-word register, so a flush is always an immediate success.
    pub fn flush(&mut self) -> (r: Result<(), Error>)
        ensures
            r is Ok,
            *final(self) == *old(self),
    {
        Ok(())
    }

    /// Blocking write of a whole buffer.
    ///
    /// Half-duplex: the line is switched to output once, then every word is
    /// sent in sequence, with no receive-readiness poll ever issued.
    /// Full-duplex: after each send one received word is drained and
    /// discarded, because the receive-ready flag must be cleared each cycle
    /// or the next send would stall.
    #[verifier::loop_isolation(false)]
    pub fn write(&mut self, words: &Vec<D::Word>) -> (r: Result<(), Error>)
        ensures
            old(self).log().is_prefix_of(final(self).log()),
            BIDI ==> forall|i: int|
                old(self).log().len() <= i < final(self).log().len() ==> !is_read_poll(
                    #[trigger] final(self).log()[i],
                ),
            match r {
                Ok(()) => if BIDI {
                    completed(final(self).log()) == completed(old(self).log()).push(
                        Event::LineOutput,
                    ) + sends(words@)
                } else {
                    exists|rx: Seq<D::Word>|
                        rx.len() == words@.len() && completed(final(self).log()) == completed(
                            old(self).log(),
                        ) + duplex(words@, rx)
                },
                Err(e) => if BIDI {
                    e is ModeFault && exists|j: int|
                        0 <= j < words@.len() && completed(final(self).log()) == completed(
                            old(self).log(),
                        ).push(Event::LineOutput) + sends(words@.take(j)).push(
                            Event::SendFaulted(e),
                        )
                } else {
                    exists|j: int, rx: Seq<D::Word>|
                        0 <= j < words@.len() && rx.len() == j && ((e is ModeFault && completed(
                            final(self).log(),
                        ) == completed(old(self).log()) + duplex(words@.take(j), rx).push(
                            Event::SendFaulted(e),
                        )) || ((e is Overrun || e is Crc) && completed(final(self).log())
                            == completed(old(self).log()) + duplex(words@.take(j), rx) + seq![
                            Event::Sent(words@[j]),
                            Event::ReadFaulted(e),
                        ]))
                },
            },
    {
        if BIDI {
            self.bidi_output();
            proof {
                lemma_completed_push(old(self).log(), Event::<D::Word>::LineOutput);
            }
            let mut i: usize = 0;
            while i < words.len()
                invariant
                    i <= words.len(),
                    old(self).log().is_prefix_of(self.log()),
                    forall|k: int|
                        old(self).log().len() <= k < self.log().len() ==> !is_read_poll(
                            #[trigger] self.log()[k],
                        ),
                    completed(self.log()) == completed(old(self).log()).push(Event::LineOutput)
                        + sends(words@.take(i as int)),
                decreases words.len() - i,
            {
                let ghost pre = self.log();
                match self.block_send(words[i]) {
                    Ok(()) => {
                        proof {
                            lemma_prefix_trans(old(self).log(), pre, self.log());
                            assert forall|k: int|
                                old(self).log().len() <= k < self.log().len() implies !is_read_poll(
                                #[trigger] self.log()[k],
                            ) by {
                                if k < pre.len() {
                                    lemma_prefix_index(pre, self.log(), k);
                                }
                            }
                            assert(completed(self.log()) =~= completed(old(self).log()).push(
                                Event::LineOutput,
                            ) + sends(words@.take(i as int + 1)));
                        }
                    },
                    Err(e) => {
                        proof {
                            lemma_prefix_trans(old(self).log(), pre, self.log());
                            assert forall|k: int|
                                old(self).log().len() <= k < self.log().len() implies !is_read_poll(
                                #[trigger] self.log()[k],
                            ) by {
                                if k < pre.len() {
                                    lemma_prefix_index(pre, self.log(), k);
                                }
                            }
                            assert(completed(self.log()) =~= completed(old(self).log()).push(
                                Event::LineOutput,
                            ) + sends(words@.take(i as int)).push(Event::SendFaulted(e)));
                        }
                        return Err(e);
                    },
                }
                i = i + 1;
            }
            proof {
                assert(words@.take(words.len() as int) =~= words@);
            }
            Ok(())
        } else {
            let ghost mut rx: Seq<D::Word> = Seq::empty();
            let mut i: usize = 0;
            while i < words.len()
                invariant
                    i <= words.len(),
                    rx.len() == i as nat,
                    old(self).log().is_prefix_of(self.log()),
                    completed(self.log()) == completed(old(self).log()) + duplex(
                        words@.take(i as int),
                        rx,
                    ),
                decreases words.len() - i,
            {
                let ghost pre = self.log();
                match self.block_send(words[i]) {
                    Ok(()) => (),
                    Err(e) => {
                        proof {
                            lemma_prefix_trans(old(self).log(), pre, self.log());
                            assert(completed(self.log()) =~= completed(old(self).log()) + duplex(
                                words@.take(i as int),
                                rx,
                            ).push(Event::SendFaulted(e)));
                        }
                        return Err(e);
                    },
                }
                let ghost mid = self.log();
                match self.block_read() {
                    Ok(w) => {
                        proof {
                            lemma_prefix_trans(old(self).log(), pre, mid);
                            lemma_prefix_trans(old(self).log(), mid, self.log());
                            rx = rx.push(w);
                            assert(completed(self.log()) =~= completed(old(self).log()) + duplex(
                                words@.take(i as int + 1),
                                rx,
                            ));
                        }
                    },
                    Err(e) => {
                        proof {
                            lemma_prefix_trans(old(self).log(), pre, mid);
                            lemma_prefix_trans(old(self).log(), mid, self.log());
                            assert(completed(self.log()) =~= completed(old(self).log()) + duplex(
                                words@.take(i as int),
                                rx,
                            ) + seq![Event::Sent(words@[i as int]), Event::ReadFaulted(e)]);
                        }
                        return Err(e);
                    },
                }
                i = i + 1;
            }
            proof {
                assert(words@.take(words.len() as int) =~= words@);
            }
            Ok(())
        }
    }

    /// Blocking read into a whole buffer.
    ///
    /// Half-duplex: the line is switched to input once, then every word is
    /// received in sequence; no word of caller data is ever sent. Full-
    /// duplex: each receive is preceded by sending the zero filler word,
    /// because the clock only runs while the transmit register feeds it.
    #[verifier::loop_isolation(false)]
    pub fn read(&mut self, words: &mut Vec<D::Word>) -> (r: Result<(), Error>)
        ensures
            final(words)@.len() == old(words)@.len(),
            old(self).log().is_prefix_of(final(self).log()),
            BIDI ==> forall|i: int|
                old(self).log().len() <= i < final(self).log().len() ==> !is_send_poll(
                    #[trigger] final(self).log()[i],
                ),
            match r {
                Ok(()) => if BIDI {
                    completed(final(self).log()) == completed(old(self).log()).push(
                        Event::LineInput,
                    ) + receives(final(words)@)
                } else {
                    completed(final(self).log()) == completed(old(self).log()) + duplex(
                        zeros(old(words)@.len()),
                        final(words)@,
                    )
                },
                Err(e) => exists|j: int|
                    0 <= j < old(words)@.len() && final(words)@.skip(j) == old(words)@.skip(j) && (
                    if BIDI {
                        (e is Overrun || e is Crc) && completed(final(self).log()) == completed(
                            old(self).log(),
                        ).push(Event::LineInput) + receives(final(words)@.take(j)).push(
                            Event::ReadFaulted(e),
                        )
                    } else {
                        (e is ModeFault && completed(final(self).log()) == completed(
                            old(self).log(),
                        ) + duplex(zeros(j as nat), final(words)@.take(j)).push(
                            Event::SendFaulted(e),
                        )) || ((e is Overrun || e is Crc) && completed(final(self).log())
                            == completed(old(self).log()) + duplex(
                            zeros(j as nat),
                            final(words)@.take(j),
                        ) + seq![Event::Sent(D::Word::spec_zero()), Event::ReadFaulted(e)])
                    }),
            },
    {
        let n: usize = words.len();
        if BIDI {
            self.bidi_input();
            proof {
                lemma_completed_push(old(self).log(), Event::<D::Word>::LineInput);
            }
            let mut i: usize = 0;
            while i < n
                invariant
                    i <= n,
                    words@.len() == n,
                    old(self).log().is_prefix_of(self.log()),
                    forall|k: int|
                        old(self).log().len() <= k < self.log().len() ==> !is_send_poll(
                            #[trigger] self.log()[k],
                        ),
                    forall|k: int| i <= k < n ==> words@[k] == old(words)@[k],
                    completed(self.log()) == completed(old(self).log()).push(Event::LineInput)
                        + receives(words@.take(i as int)),
                decreases n - i,
            {
                let ghost pre = self.log();
                let ghost pre_words = words@;
                match self.block_read() {
                    Ok(w) => {
                        words[i] = w;
                        proof {
                            lemma_prefix_trans(old(self).log(), pre, self.log());
                            assert forall|k: int|
                                old(self).log().len() <= k < self.log().len() implies !is_send_poll(
                                #[trigger] self.log()[k],
                            ) by {
                                if k < pre.len() {
                                    lemma_prefix_index(pre, self.log(), k);
                                }
                            }
                            assert(receives(words@.take(i as int + 1)) =~= receives(
                                pre_words.take(i as int),
                            ).push(Event::Received(w)));
                            assert(completed(self.log()) =~= completed(old(self).log()).push(
                                Event::LineInput,
                            ) + receives(words@.take(i as int + 1)));
                        }
                    },
                    Err(e) => {
                        proof {
                            lemma_prefix_trans(old(self).log(), pre, self.log());
                            assert forall|k: int|
                                old(self).log().len() <= k < self.log().len() implies !is_send_poll(
                                #[trigger] self.log()[k],
                            ) by {
                                if k < pre.len() {
                                    lemma_prefix_index(pre, self.log(), k);
                                }
                            }
                            assert(completed(self.log()) =~= completed(old(self).log()).push(
                                Event::LineInput,
                            ) + receives(words@.take(i as int)).push(Event::ReadFaulted(e)));
                            assert(words@.skip(i as int) =~= old(words)@.skip(i as int));
                        }
                        return Err(e);
                    },
                }
                i = i + 1;
            }
            proof {
                assert(words@.take(n as int) =~= words@);
            }
            Ok(())
        } else {
            let mut i: usize = 0;
            while i < n
                invariant
                    i <= n,
                    words@.len() == n,
                    old(self).log().is_prefix_of(self.log()),
                    forall|k: int| i <= k < n ==> words@[k] == old(words)@[k],
                    completed(self.log()) == completed(old(self).log()) + duplex(
                        zeros(i as nat),
                        words@.take(i as int),
                    ),
                decreases n - i,
            {
                let ghost pre = self.log();
                let ghost pre_words = words@;
                match self.block_send(D::Word::zero_word()) {
                    Ok(()) => (),
                    Err(e) => {
                        proof {
                            lemma_prefix_trans(old(self).log(), pre, self.log());
                            assert(completed(self.log()) =~= completed(old(self).log()) + duplex(
                                zeros(i as nat),
                                words@.take(i as int),
                            ).push(Event::SendFaulted(e)));
                            assert(words@.skip(i as int) =~= old(words)@.skip(i as int));
                        }
                        return Err(e);
                    },
                }
                let ghost mid = self.log();
                match self.block_read() {
                    Ok(w) => {
                        words[i] = w;
                        proof {
                            lemma_prefix_trans(old(self).log(), pre, mid);
                            lemma_prefix_trans(old(self).log(), mid, self.log());
                            assert(completed(self.log()) =~= completed(old(self).log()) + duplex(
                                zeros(i as nat + 1),
                                words@.take(i as int + 1),
                            ));
                        }
                    },
                    Err(e) => {
                        proof {
                            lemma_prefix_trans(old(self).log(), pre, mid);
                            lemma_prefix_trans(old(self).log(), mid, self.log());
                            assert(completed(self.log()) =~= completed(old(self).log()) + duplex(
                                zeros(i as nat),
                                words@.take(i as int),
                            ) + seq![
                                Event::Sent(D::Word::spec_zero()),
                                Event::ReadFaulted(e),
                            ]);
                            assert(words@.skip(i as int) =~= old(words)@.skip(i as int));
                        }
                        return Err(e);
                    },
                }
                i = i + 1;
            }
            proof {
                assert(words@.take(n as int) =~= words@);
            }
            Ok(())
        }
    }
}

impl<D: Instance> Spi<D, false> {
    /// Full-duplex symmetric transfer into the same buffer: for each
    /// position the outgoing word is sent, then the word that arrived in
    /// exchange overwrites it, before the next position is touched. One
    /// physical clock pulse sequence does both, so the alternation is
    /// strict.
    ///
    /// On an error the buffer is overwritten exactly up to the failing
    /// word; later positions are untouched and later words are never
    /// attempted.
    #[verifier::loop_isolation(false)]
    pub fn transfer_in_place(&mut self, words: &mut Vec<D::Word>) -> (r: Result<(), Error>)
        ensures
            final(words)@.len() == old(words)@.len(),
            old(self).log().is_prefix_of(final(self).log()),
            match r {
                Ok(()) => completed(final(self).log()) == completed(old(self).log()) + duplex(
                    old(words)@,
                    final(words)@,
                ),
                Err(e) => exists|j: int|
                    0 <= j < old(words)@.len() && final(words)@.skip(j) == old(words)@.skip(j) && (
                    (e is ModeFault && completed(final(self).log()) == completed(old(self).log())
                        + duplex(old(words)@.take(j), final(words)@.take(j)).push(
                        Event::SendFaulted(e),
                    )) || ((e is Overrun || e is Crc) && completed(final(self).log()) == completed(
                        old(self).log(),
                    ) + duplex(old(words)@.take(j), final(words)@.take(j)) + seq![
                        Event::Sent(old(words)@[j]),
                        Event::ReadFaulted(e),
                    ])),
            },
    {
        let n: usize = words.len();
        let mut i: usize = 0;
        while i < n
            invariant
                i <= n,
                words@.len() == n,
                old(self).log().is_prefix_of(self.log()),
                forall|k: int| i <= k < n ==> words@[k] == old(words)@[k],
                completed(self.log()) == completed(old(self).log()) + duplex(
                    old(words)@.take(i as int),
                    words@.take(i as int),
                ),
            decreases n - i,
        {
            let ghost pre = self.log();
            let ghost pre_words = words@;
            let w: D::Word = words[i];
            match self.block_send(w) {
                Ok(()) => (),
                Err(e) => {
                    proof {
                        lemma_prefix_trans(old(self).log(), pre, self.log());
                        assert(completed(self.log()) =~= completed(old(self).log()) + duplex(
                            old(words)@.take(i as int),
                            words@.take(i as int),
                        ).push(Event::SendFaulted(e)));
                        assert(words@.skip(i as int) =~= old(words)@.skip(i as int));
                    }
                    return Err(e);
                },
            }
            let ghost mid = self.log();
            match self.block_read() {
                Ok(rw) => {
                    words[i] = rw;
                    proof {
                        lemma_prefix_trans(old(self).log(), pre, mid);
                        lemma_prefix_trans(old(self).log(), mid, self.log());
                        assert(words@.take(i as int) =~= pre_words.take(i as int));
                        assert(completed(self.log()) =~= completed(old(self).log()) + duplex(
                            old(words)@.take(i as int + 1),
                            words@.take(i as int + 1),
                        ));
                    }
                },
                Err(e) => {
                    proof {
                        lemma_prefix_trans(old(self).log(), pre, mid);
                        lemma_prefix_trans(old(self).log(), mid, self.log());
                        assert(completed(self.log()) =~= completed(old(self).log()) + duplex(
                            old(words)@.take(i as int),
                            words@.take(i as int),
                        ) + seq![Event::Sent(old(words)@[i as int]), Event::ReadFaulted(e)]);
                        assert(words@.skip(i as int) =~= old(words)@.skip(i as int));
                    }
                    return Err(e);
                },
            }
            i = i + 1;
        }
        proof {
            assert(old(words)@.take(n as int) =~= old(words)@);
            assert(words@.take(n as int) =~= words@);
        }
        Ok(())
    }

    /// Full-duplex transfer between two distinct buffers of equal length:
    /// `data` is sent word by word while the words arriving in exchange
    /// fill `buff`. Mismatched lengths are a caller programming error and
    /// are rejected by precondition, before any hardware access.
    #[verifier::loop_isolation(false)]
    pub fn transfer(&mut self, buff: &mut Vec<D::Word>, data: &Vec<D::Word>) -> (r: Result<
        (),
        Error,
    >)
        requires
            old(buff)@.len() == data@.len(),
        ensures
            final(buff)@.len() == old(buff)@.len(),
            old(self).log().is_prefix_of(final(self).log()),
            match r {
                Ok(()) => completed(final(self).log()) == completed(old(self).log()) + duplex(
                    data@,
                    final(buff)@,
                ),
                Err(e) => exists|j: int|
                    0 <= j < data@.len() && final(buff)@.skip(j) == old(buff)@.skip(j) && ((
                    e is ModeFault && completed(final(self).log()) == completed(old(self).log())
                        + duplex(data@.take(j), final(buff)@.take(j)).push(Event::SendFaulted(e)))
                        || ((e is Overrun || e is Crc) && completed(final(self).log()) == completed(
                        old(self).log(),
                    ) + duplex(data@.take(j), final(buff)@.take(j)) + seq![
                        Event::Sent(data@[j]),
                        Event::ReadFaulted(e),
                    ])),
            },
    {
        let n: usize = data.len();
        let mut i: usize = 0;
        while i < n
            invariant
                i <= n,
                buff@.len() == n,
                old(self).log().is_prefix_of(self.log()),
                forall|k: int| i <= k < n ==> buff@[k] == old(buff)@[k],
                completed(self.log()) == completed(old(self).log()) + duplex(
                    data@.take(i as int),
                    buff@.take(i as int),
                ),
            decreases n - i,
        {
            let ghost pre = self.log();
            let ghost pre_buff = buff@;
            match self.block_send(data[i]) {
                Ok(()) => (),
                Err(e) => {
                    proof {
                        lemma_prefix_trans(old(self).log(), pre, self.log());
                        assert(completed(self.log()) =~= completed(old(self).log()) + duplex(
                            data@.take(i as int),
                            buff@.take(i as int),
                        ).push(Event::SendFaulted(e)));
                        assert(buff@.skip(i as int) =~= old(buff)@.skip(i as int));
                    }
                    return Err(e);
                },
            }
            let ghost mid = self.log();
            match self.block_read() {
                Ok(rw) => {
                    buff[i] = rw;
                    proof {
                        lemma_prefix_trans(old(self).log(), pre, mid);
                        lemma_prefix_trans(old(self).log(), mid, self.log());
                        assert(buff@.take(i as int) =~= pre_buff.take(i as int));
                        assert(completed(self.log()) =~= completed(old(self).log()) + duplex(
                            data@.take(i as int + 1),
                            buff@.take(i as int + 1),
                        ));
                    }
                },
                Err(e) => {
                    proof {
                        lemma_prefix_trans(old(self).log(), pre, mid);
                        lemma_prefix_trans(old(self).log(), mid, self.log());
                        assert(completed(self.log()) =~= completed(old(self).log()) + duplex(
                            data@.take(i as int),
                            buff@.take(i as int),
                        ) + seq![Event::Sent(data@[i as int]), Event::ReadFaulted(e)]);
                        assert(buff@.skip(i as int) =~= old(buff)@.skip(i as int));
                    }
                    return Err(e);
                },
            }
            i = i + 1;
        }
        proof {
            assert(data@.take(n as int) =~= data@);
            assert(buff@.take(n as int) =~= buff@);
        }
        Ok(())
    }

    /// Execute a batch of operations strictly in order, stopping at the
    /// first failure. A failed batch leaves every earlier operation fully
    /// applied, the failing one partially applied up to the failing word,
    /// and every later one unexecuted.
    #[verifier::loop_isolation(false)]
    pub fn exec(&mut self, operations: &mut Vec<Operation<D::Word>>) -> (r: Result<(), Error>)
        ensures
            final(operations)@.len() == old(operations)@.len(),
            old(self).log().is_prefix_of(final(self).log()),
            match r {
                Ok(()) => exists|ce: Seq<Event<D::Word>>|
                    completed(final(self).log()) == completed(old(self).log()) + ce && #[trigger] ops_match(
                        old(operations)@,
                        final(operations)@,
                        ce,
                    ),
                Err(e) => exists|k: int, ce: Seq<Event<D::Word>>, tr: Seq<Event<D::Word>>|
                    #![trigger ops_match(old(operations)@.take(k), final(operations)@.take(k), ce), op_partial(old(operations)@[k], final(operations)@[k], tr, e)]
                    0 <= k < old(operations)@.len() && final(operations)@.skip(k + 1) == old(
                        operations,
                    )@.skip(k + 1) && completed(final(self).log()) == completed(old(self).log())
                        + ce + tr && ops_match(
                        old(operations)@.take(k),
                        final(operations)@.take(k),
                        ce,
                    ) && op_partial(old(operations)@[k], final(operations)@[k], tr, e),
            },
    {
        let n: usize = operations.len();
        let mut k: usize = 0;
        let ghost mut ce: Seq<Event<D::Word>> = Seq::empty();
        proof {
            assert(completed(self.log()) =~= completed(old(self).log()) + ce);
        }
        while k < n
            invariant
                k <= n,
                operations@.len() == n,
                old(self).log().is_prefix_of(self.log()),
                forall|j: int| k <= j < n ==> operations@[j] == old(operations)@[j],
                completed(self.log()) == completed(old(self).log()) + ce,
                ops_match(old(operations)@.take(k as int), operations@.take(k as int), ce),
            decreases n - k,
        {
            let ghost pre = self.log();
            let ghost pre_ops = operations@;
            let opr = &mut operations[k];
            match opr {
                Operation::Write(a) => {
                    let r = self.write(a);
                    match r {
                        Ok(()) => {
                            proof {
                                lemma_prefix_trans(old(self).log(), pre, self.log());
                                let rx = choose|rx: Seq<D::Word>|
                                    rx.len() == a@.len() && completed(self.log()) == completed(pre)
                                        + duplex(a@, rx);
                                let tr = duplex(a@, rx);
                                assert(operations@.take(k as int) =~= pre_ops.take(k as int));
                                assert(op_done(pre_ops[k as int], operations@[k as int], tr));
                                lemma_ops_match_push(
                                    old(operations)@.take(k as int),
                                    pre_ops.take(k as int),
                                    ce,
                                    old(operations)@[k as int],
                                    operations@[k as int],
                                    tr,
                                );
                                assert(old(operations)@.take(k as int + 1) =~= old(
                                    operations,
                                )@.take(k as int).push(old(operations)@[k as int]));
                                assert(operations@.take(k as int + 1) =~= operations@.take(
                                    k as int,
                                ).push(operations@[k as int]));
                                ce = ce + tr;
                                assert(completed(self.log()) =~= completed(old(self).log()) + ce);
                            }
                        },
                        Err(e) => {
                            proof {
                                lemma_prefix_trans(old(self).log(), pre, self.log());
                                let (j, rx) = choose|j: int, rx: Seq<D::Word>|
                                    0 <= j < a@.len() && rx.len() == j && ((e is ModeFault
                                        && completed(self.log()) == completed(pre) + duplex(
                                        a@.take(j),
                                        rx,
                                    ).push(Event::SendFaulted(e))) || ((e is Overrun || e is Crc)
                                        && completed(self.log()) == completed(pre) + duplex(
                                        a@.take(j),
                                        rx,
                                    ) + seq![Event::Sent(a@[j]), Event::ReadFaulted(e)]));
                                let tr = if e is ModeFault {
                                    duplex(a@.take(j), rx).push(Event::SendFaulted(e))
                                } else {
                                    duplex(a@.take(j), rx) + seq![
                                        Event::Sent(a@[j]),
                                        Event::ReadFaulted(e),
                                    ]
                                };
                                assert(op_partial(
                                    old(operations)@[k as int],
                                    operations@[k as int],
                                    tr,
                                    e,
                                ));
                                assert(operations@.take(k as int) =~= pre_ops.take(k as int));
                                assert(completed(self.log()) =~= completed(old(self).log()) + ce
                                    + tr);
                                assert(operations@.skip(k as int + 1) =~= old(operations)@.skip(
                                    k as int + 1,
                                ));
                            }
                            return Err(e);
                        },
                    }
                },
                Operation::Transfer(b) => {
                    let ghost b0 = b@;
                    let r = self.transfer_in_place(b);
                    match r {
                        Ok(()) => {
                            proof {
                                lemma_prefix_trans(old(self).log(), pre, self.log());
                                let tr = duplex(b0, b@);
                                assert(operations@.take(k as int) =~= pre_ops.take(k as int));
                                assert(op_done(pre_ops[k as int], operations@[k as int], tr));
                                lemma_ops_match_push(
                                    old(operations)@.take(k as int),
                                    pre_ops.take(k as int),
                                    ce,
                                    old(operations)@[k as int],
                                    operations@[k as int],
                                    tr,
                                );
                                assert(old(operations)@.take(k as int + 1) =~= old(
                                    operations,
                                )@.take(k as int).push(old(operations)@[k as int]));
                                assert(operations@.take(k as int + 1) =~= operations@.take(
                                    k as int,
                                ).push(operations@[k as int]));
                                ce = ce + tr;
                                assert(completed(self.log()) =~= completed(old(self).log()) + ce);
                            }
                        },
                        Err(e) => {
                            proof {
                                lemma_prefix_trans(old(self).log(), pre, self.log());
                                let j = choose|j: int|
                                    0 <= j < b0.len() && b@.skip(j) == b0.skip(j) && ((
                                    e is ModeFault && completed(self.log()) == completed(pre)
                                        + duplex(b0.take(j), b@.take(j)).push(
                                        Event::SendFaulted(e),
                                    )) || ((e is Overrun || e is Crc) && completed(self.log())
                                        == completed(pre) + duplex(b0.take(j), b@.take(j)) + seq![
                                        Event::Sent(b0[j]),
                                        Event::ReadFaulted(e),
                                    ]));
                                let tr = if e is ModeFault {
                                    duplex(b0.take(j), b@.take(j)).push(Event::SendFaulted(e))
                                } else {
                                    duplex(b0.take(j), b@.take(j)) + seq![
                                        Event::Sent(b0[j]),
                                        Event::ReadFaulted(e),
                                    ]
                                };
                                assert(op_partial(
                                    old(operations)@[k as int],
                                    operations@[k as int],
                                    tr,
                                    e,
                                ));
                                assert(operations@.take(k as int) =~= pre_ops.take(k as int));
                                assert(completed(self.log()) =~= completed(old(self).log()) + ce
                                    + tr);
                                assert(operations@.skip(k as int + 1) =~= old(operations)@.skip(
                                    k as int + 1,
                                ));
                            }
                            return Err(e);
                        },
                    }
                },
            }
            k = k + 1;
        }
        proof {
            assert(old(operations)@.take(n as int) =~= old(operations)@);
            assert(operations@.take(n as int) =~= operations@);
        }
        Ok(())
    }
}

} // verus!
