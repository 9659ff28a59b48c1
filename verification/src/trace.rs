//! The abstract trace of hardware interactions.
//!
//! Every poll of the readiness primitive and every half-duplex line switch
//! appends one [`Event`] to the device's trace. The transfer engine's
//! contracts are stated over this trace: which polls a buffer operation may
//! issue, and which completed interaction pattern it leaves behind.

use vstd::prelude::*;

use crate::mode::Error;

verus! {

/// One observable interaction with the hardware.
#[derive(Clone, Copy, Debug, PartialEq, Eq, Structural)]
pub enum Event<W> {
    /// A send-readiness poll that found the transmit register still busy.
    SendBlocked,
    /// A send-readiness poll that handed a word to the hardware.
    Sent(W),
    /// A send-readiness poll that found a fault latched.
    SendFaulted(Error),
    /// A receive-readiness poll with no word available yet.
    ReadBlocked,
    /// A receive-readiness poll that yielded a word.
    Received(W),
    /// A receive-readiness poll that found a fault latched.
    ReadFaulted(Error),
    /// The half-duplex data line was switched to drive (output).
    LineOutput,
    /// The half-duplex data line was switched to listen (input).
    LineInput,
}

/// Does the event stem from a send-readiness poll?
pub open spec fn is_send_poll<W>(e: Event<W>) -> bool {
    e is SendBlocked || e is Sent || e is SendFaulted
}

/// Does the event stem from a receive-readiness poll?
pub open spec fn is_read_poll<W>(e: Event<W>) -> bool {
    e is ReadBlocked || e is Received || e is ReadFaulted
}

/// A poll that caused no side effect: the hardware was simply not ready.
pub open spec fn is_blocked<W>(e: Event<W>) -> bool {
    e is SendBlocked || e is ReadBlocked
}

/// The trace restricted to the events that did something: completed sends
/// and receives, faults, and line switches. Repeated polling while the
/// hardware is not ready leaves this subsequence unchanged.
pub open spec fn completed<W>(log: Seq<Event<W>>) -> Seq<Event<W>> {
    log.filter(|e: Event<W>| !is_blocked(e))
}

/// The strictly alternating completed trace of a full-duplex transfer:
/// for each index, the outgoing word is sent before the incoming word of
/// the same index is received.
pub open spec fn duplex<W>(tx: Seq<W>, rx: Seq<W>) -> Seq<Event<W>> {
    Seq::new(
        (2 * tx.len()) as nat,
        |k: int| if k % 2 == 0 { Event::Sent(tx[k / 2]) } else { Event::Received(rx[k / 2]) },
    )
}

/// The completed trace of a half-duplex write: one send per word, nothing
/// interleaved.
pub open spec fn sends<W>(ws: Seq<W>) -> Seq<Event<W>> {
    Seq::new(ws.len(), |i: int| Event::Sent(ws[i]))
}

/// The completed trace of a half-duplex read: one receive per word, nothing
/// interleaved.
pub open spec fn receives<W>(ws: Seq<W>) -> Seq<Event<W>> {
    Seq::new(ws.len(), |i: int| Event::Received(ws[i]))
}

/// Does `ce` shape a full-duplex write-only transfer of `tx`? Every word is
/// sent in order, and after each send the receiver is drained of one word
/// whose value the caller discards.
pub open spec fn drained_duplex<W>(tx: Seq<W>, ce: Seq<Event<W>>) -> bool {
    &&& ce.len() == 2 * tx.len()
    &&& forall|k: int|
        0 <= k < tx.len() ==> #[trigger] ce[2 * k] == Event::Sent(tx[k]) && ce[2 * k + 1] is Received
}

/// Prefix order on traces is transitive.
pub proof fn lemma_prefix_trans<T>(a: Seq<T>, b: Seq<T>, c: Seq<T>)
    requires
        a.is_prefix_of(b),
        b.is_prefix_of(c),
    ensures
        a.is_prefix_of(c),
{
    assert(a =~= c.take(a.len() as int));
}

/// A prefix agrees with the whole trace at every index it covers.
pub proof fn lemma_prefix_index<T>(a: Seq<T>, b: Seq<T>, i: int)
    requires
        a.is_prefix_of(b),
        0 <= i < a.len(),
    ensures
        a[i] == b[i],
{
}

/// Appending one event to a trace extends its completed subsequence exactly
/// when the event is not a fruitless poll.
pub proof fn lemma_completed_push<W>(log: Seq<Event<W>>, e: Event<W>)
    ensures
        completed(log.push(e)) == if is_blocked(e) {
            completed(log)
        } else {
            completed(log).push(e)
        },
{
    reveal(Seq::filter);
    assert(log.push(e).drop_last() =~= log);
    assert(log.push(e).last() == e);
}

} // verus!
