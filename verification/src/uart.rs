//! The legacy byte-UART transport, in its two mutually exclusive chip
//! protocols: one hands each byte to a boot-ROM transmit routine, the other
//! drives the UART registers directly and handshakes on a completion flag.

use crate::sim::{chunk_len, num_chunks};
use vstd::prelude::*;

verus! {

/// FIFO depth of the direct-register protocol: bytes per handshake cycle.
pub const UART_BURST: usize = 64;

/// One observable action on the direct-register UART.
#[derive(Clone, Copy, Debug, PartialEq, Eq, Structural)]
pub enum UartEvent {
    /// A byte written to the FIFO data register.
    Byte(u8),
    /// A read of the completion flag in the status register.
    Poll,
    /// The completion flag written back to clear it.
    Clear,
}

/// The events one chunk of the direct-register protocol leaves behind: its
/// bytes in order, `k` reads of the completion flag (with this flag model the
/// flag first reads ready on the `k`-th), then the clearing write.
pub open spec fn uart_chunk_trace(chunk: Seq<u8>, k: int) -> Seq<UartEvent> {
    chunk.map_values(|b: u8| UartEvent::Byte(b)) + Seq::new(
        k as nat,
        |i: int| UartEvent::Poll,
    ).push(UartEvent::Clear)
}

/// The whole direct-register transfer: chunks of at most `UART_BURST` bytes,
/// each followed by the wait/clear handshake.
pub open spec fn uart_run(bytes: Seq<u8>, k: int) -> Seq<UartEvent>
    decreases bytes.len(),
{
    if bytes.len() == 0 {
        Seq::<UartEvent>::empty()
    } else {
        let c = chunk_len(bytes.len() as int, UART_BURST as int);
        uart_chunk_trace(bytes.take(c), k) + uart_run(bytes.skip(c), k)
    }
}

/// The data bytes a direct-register event log carries, in order.
pub open spec fn uart_data(ev: Seq<UartEvent>) -> Seq<u8>
    decreases ev.len(),
{
    if ev.len() == 0 {
        Seq::<u8>::empty()
    } else {
        match ev[0] {
            UartEvent::Byte(b) => seq![b] + uart_data(ev.drop_first()),
            _ => uart_data(ev.drop_first()),
        }
    }
}

/// How many completion-flag polls an event log carries.
pub open spec fn uart_polls(ev: Seq<UartEvent>) -> int
    decreases ev.len(),
{
    if ev.len() == 0 {
        0
    } else {
        (match ev[0] {
            UartEvent::Poll => 1int,
            _ => 0int,
        }) + uart_polls(ev.drop_first())
    }
}

/// How many clearing writes an event log carries.
pub open spec fn uart_clears(ev: Seq<UartEvent>) -> int
    decreases ev.len(),
{
    if ev.len() == 0 {
        0
    } else {
        (match ev[0] {
            UartEvent::Clear => 1int,
            _ => 0int,
        }) + uart_clears(ev.drop_first())
    }
}

/// All three projections distribute over concatenation.
pub proof fn lemma_uart_projections_add(a: Seq<UartEvent>, b: Seq<UartEvent>)
    ensures
        uart_data(a + b) == uart_data(a) + uart_data(b),
        uart_polls(a + b) == uart_polls(a) + uart_polls(b),
        uart_clears(a + b) == uart_clears(a) + uart_clears(b),
    decreases a.len(),
{
    if a.len() == 0 {
        assert(a + b =~= b);
        assert(uart_data(a) + uart_data(b) =~= uart_data(b));
    } else {
        assert((a + b).drop_first() =~= a.drop_first() + b);
        lemma_uart_projections_add(a.drop_first(), b);
        assert((a + b)[0] == a[0]);
        match a[0] {
            UartEvent::Byte(x) => {
                assert(seq![x] + (uart_data(a.drop_first()) + uart_data(b)) =~= (seq![x]
                    + uart_data(a.drop_first())) + uart_data(b));
            },
            _ => {},
        }
    }
}

/// The handshake part of a chunk trace carries no data, `k` polls and one
/// clear.
proof fn lemma_uart_handshake_shape(k: int)
    requires
        k >= 0,
    ensures
        uart_data(Seq::new(k as nat, |i: int| UartEvent::Poll).push(UartEvent::Clear))
            == Seq::<u8>::empty(),
        uart_polls(Seq::new(k as nat, |i: int| UartEvent::Poll).push(UartEvent::Clear)) == k,
        uart_clears(Seq::new(k as nat, |i: int| UartEvent::Poll).push(UartEvent::Clear)) == 1,
    decreases k,
{
    let ev = Seq::new(k as nat, |i: int| UartEvent::Poll).push(UartEvent::Clear);
    if k == 0 {
        assert(ev =~= seq![UartEvent::Clear]);
        assert(ev[0] == UartEvent::Clear);
        assert(ev.drop_first() =~= Seq::<UartEvent>::empty());
        assert(uart_data(Seq::<UartEvent>::empty()) == Seq::<u8>::empty());
        assert(uart_polls(Seq::<UartEvent>::empty()) == 0);
        assert(uart_clears(Seq::<UartEvent>::empty()) == 0);
    } else {
        lemma_uart_handshake_shape(k - 1);
        assert(ev[0] == UartEvent::Poll);
        assert(ev.drop_first() =~= Seq::new((k - 1) as nat, |i: int| UartEvent::Poll).push(
            UartEvent::Clear,
        ));
    }
}

/// One chunk's trace carries exactly its bytes, `k` polls and one clear.
pub proof fn lemma_uart_chunk_trace_shape(chunk: Seq<u8>, k: int)
    requires
        k >= 0,
    ensures
        uart_data(uart_chunk_trace(chunk, k)) == chunk,
        uart_polls(uart_chunk_trace(chunk, k)) == k,
        uart_clears(uart_chunk_trace(chunk, k)) == 1,
    decreases chunk.len(),
{
    let tail = Seq::new(k as nat, |i: int| UartEvent::Poll).push(UartEvent::Clear);
    let ev = uart_chunk_trace(chunk, k);
    if chunk.len() == 0 {
        assert(ev =~= tail);
        lemma_uart_handshake_shape(k);
    } else {
        lemma_uart_chunk_trace_shape(chunk.drop_first(), k);
        assert(ev[0] == UartEvent::Byte(chunk[0]));
        assert(ev.drop_first() =~= uart_chunk_trace(chunk.drop_first(), k));
        assert(seq![chunk[0]] + chunk.drop_first() =~= chunk);
    }
}

/// Law: the whole direct-register trace carries every input byte, in order,
/// and per chunk exactly `k` polls of the completion flag and one clearing
/// write — the wait/clear handshake happens once per chunk and waits for
/// exactly the `k` polls the flag model demands.
pub proof fn lemma_uart_run_shape(bytes: Seq<u8>, k: int)
    requires
        k >= 0,
    ensures
        uart_data(uart_run(bytes, k)) == bytes,
        uart_polls(uart_run(bytes, k)) == k * num_chunks(bytes.len() as int, UART_BURST as int),
        uart_clears(uart_run(bytes, k)) == num_chunks(bytes.len() as int, UART_BURST as int),
    decreases bytes.len(),
{
    if bytes.len() == 0 {
        assert(num_chunks(0, UART_BURST as int) == 0);
    } else {
        let c = chunk_len(bytes.len() as int, UART_BURST as int);
        lemma_uart_run_shape(bytes.skip(c), k);
        lemma_uart_chunk_trace_shape(bytes.take(c), k);
        lemma_uart_projections_add(uart_chunk_trace(bytes.take(c), k), uart_run(bytes.skip(c), k));
        assert(bytes.take(c) + bytes.skip(c) =~= bytes);
        let rest = num_chunks(bytes.skip(c).len() as int, UART_BURST as int);
        assert(k + k * rest == k * (1 + rest)) by (nonlinear_arith);
    }
}

/// Direct-register protocol, used on the one chip variant whose ROM routine
/// is unreliable. The completion flag is modelled by a poll count: after a
/// clear, the flag first reads ready on the `ready_after`-th status read.
pub struct DirectUart {
    /// Polls needed, after a clear, before the completion flag reads ready.
    pub ready_after: u32,
    /// Status reads since the completion flag was last cleared.
    pub pending: u32,
    /// Observable register activity, in order.
    pub log: Vec<UartEvent>,
}

impl DirectUart {
    /// Between writes the model is idle — the flag was cleared — and the
    /// hardware is assumed to always eventually report completion.
    pub open spec fn wf(self) -> bool {
        self.ready_after >= 1 && self.pending == 0
    }

    /// Read the completion flag: ready once `ready_after` reads have
    /// happened since the last clear.
    fn poll_done(&mut self) -> (done: bool)
        requires
            old(self).pending < old(self).ready_after,
        ensures
            final(self).ready_after == old(self).ready_after,
            final(self).pending == old(self).pending + 1,
            final(self).log@ == old(self).log@.push(UartEvent::Poll),
            done == (old(self).pending + 1 == old(self).ready_after),
    {
        self.log.push(UartEvent::Poll);
        self.pending = self.pending + 1;
        self.pending == self.ready_after
    }

    /// Write the completion flag back to clear it.
    fn clear_done(&mut self)
        ensures
            final(self).ready_after == old(self).ready_after,
            final(self).pending == 0,
            final(self).log@ == old(self).log@.push(UartEvent::Clear),
    {
        self.log.push(UartEvent::Clear);
        self.pending = 0;
    }

    /// Write `bytes[from..end]` into the FIFO data register, in order.
    fn fill_chunk(&mut self, bytes: &[u8], from: usize, end: usize)
        requires
            from <= end <= bytes@.len(),
        ensures
            final(self).ready_after == old(self).ready_after,
            final(self).pending == old(self).pending,
            final(self).log@ == old(self).log@ + bytes@.subrange(
                from as int,
                end as int,
            ).map_values(|b: u8| UartEvent::Byte(b)),
    {
        let ghost pre = *self;
        let mut i: usize = from;
        while i < end
            invariant
                from <= i <= end <= bytes@.len(),
                self.ready_after == pre.ready_after,
                self.pending == pre.pending,
                self.log@ == pre.log@ + bytes@.subrange(from as int, i as int).map_values(
                    |b: u8| UartEvent::Byte(b),
                ),
            decreases end - i,
        {
            self.log.push(UartEvent::Byte(bytes[i]));
            i = i + 1;
            proof {
                assert(bytes@.subrange(from as int, i as int) =~= bytes@.subrange(
                    from as int,
                    i - 1,
                ).push(bytes@[i - 1]));
                assert(self.log@ =~= pre.log@ + bytes@.subrange(from as int, i as int).map_values(
                    |b: u8| UartEvent::Byte(b),
                ));
            }
        }
    }

    /// Busy-wait on the completion flag, then clear it. With this flag model
    /// the wait is exactly `ready_after` polls; against real hardware this
    /// path has no iteration bound and assumes the flag eventually reads
    /// ready.
    fn await_and_clear(&mut self)
        requires
            old(self).wf(),
        ensures
            final(self).wf(),
            final(self).ready_after == old(self).ready_after,
            final(self).log@ == old(self).log@ + Seq::new(
                old(self).ready_after as nat,
                |i: int| UartEvent::Poll,
            ).push(UartEvent::Clear),
    {
        let ghost pre = *self;
        loop
            invariant_except_break
                self.ready_after == pre.ready_after,
                self.pending < self.ready_after,
                self.log@ == pre.log@ + Seq::new(self.pending as nat, |i: int| UartEvent::Poll),
            ensures
                self.ready_after == pre.ready_after,
                self.pending == self.ready_after,
                self.log@ == pre.log@ + Seq::new(
                    pre.ready_after as nat,
                    |i: int| UartEvent::Poll,
                ),
            decreases self.ready_after - self.pending,
        {
            let done = self.poll_done();
            proof {
                assert(Seq::new(self.pending as nat, |i: int| UartEvent::Poll) =~= Seq::new(
                    (self.pending - 1) as nat,
                    |i: int| UartEvent::Poll,
                ).push(UartEvent::Poll));
                assert(self.log@ =~= pre.log@ + Seq::new(
                    self.pending as nat,
                    |i: int| UartEvent::Poll,
                ));
            }
            if done {
                break;
            }
        }
        self.clear_done();
        proof {
            assert(self.log@ =~= pre.log@ + Seq::new(
                pre.ready_after as nat,
                |i: int| UartEvent::Poll,
            ).push(UartEvent::Clear));
        }
    }

    /// The chunk loop from offset `from`: fill the FIFO, busy-wait on the
    /// completion flag, clear it, advance.
    fn write_chunks(&mut self, bytes: &[u8], from: usize)
        requires
            old(self).wf(),
            from <= bytes@.len(),
        ensures
            final(self).wf(),
            final(self).ready_after == old(self).ready_after,
            final(self).log@ == old(self).log@ + uart_run(
                bytes@.skip(from as int),
                old(self).ready_after as int,
            ),
        decreases bytes@.len() - from,
    {
        if from == bytes.len() {
            proof {
                assert(bytes@.skip(from as int) =~= Seq::<u8>::empty());
                assert(self.log@ =~= self.log@ + uart_run(
                    bytes@.skip(from as int),
                    self.ready_after as int,
                ));
            }
            return ;
        }
        let ghost pre = *self;
        let ghost rem = bytes@.skip(from as int);
        let end = if bytes.len() - from <= UART_BURST {
            bytes.len()
        } else {
            from + UART_BURST
        };
        let ghost c = chunk_len(rem.len() as int, UART_BURST as int);
        proof {
            assert(end - from == c);
            assert(rem.take(c) =~= bytes@.subrange(from as int, end as int));
        }
        self.fill_chunk(bytes, from, end);
        self.await_and_clear();
        proof {
            assert(self.log@ =~= pre.log@ + uart_chunk_trace(rem.take(c), pre.ready_after as int));
        }
        self.write_chunks(bytes, end);
        proof {
            assert(bytes@.skip(end as int) =~= rem.skip(c));
            assert(self.log@ =~= pre.log@ + uart_run(rem, pre.ready_after as int));
        }
    }

    /// Best-effort write: fixed-size chunks; for each, fill the FIFO data
    /// register, busy-wait on the completion flag, then clear the flag
    /// before advancing. In-order delivery of the whole input.
    pub fn write(&mut self, bytes: &[u8])
        requires
            old(self).wf(),
        ensures
            final(self).wf(),
            final(self).ready_after == old(self).ready_after,
            final(self).log@ == old(self).log@ + uart_run(bytes@, old(self).ready_after as int),
    {
        self.write_chunks(bytes, 0);
        proof {
            assert(bytes@.skip(0) =~= bytes@);
        }
    }
}

/// ROM-routine protocol: the boot-ROM transmit routine, modelled by the
/// sequence of bytes it has been handed. The routine also returns a status
/// code, which this transport ignores, so the model does not carry it.
pub struct RomUart {
    /// Every byte handed to the ROM routine, in call order.
    pub sent: Vec<u8>,
}

impl RomUart {
    /// Invoke the ROM transmit routine with one byte (its status is dropped).
    fn send(&mut self, b: u8)
        ensures
            final(self).sent@ == old(self).sent@.push(b),
    {
        self.sent.push(b);
    }

    /// Best-effort write: hand each byte to the ROM routine, in input order.
    /// The routine observes every byte exactly once — none is dropped,
    /// duplicated or reordered — as the postcondition states.
    pub fn write(&mut self, bytes: &[u8])
        ensures
            final(self).sent@ == old(self).sent@ + bytes@,
    {
        let ghost pre = *self;
        let mut i: usize = 0;
        while i < bytes.len()
            invariant
                i <= bytes@.len(),
                self.sent@ == pre.sent@ + bytes@.subrange(0, i as int),
            decreases bytes@.len() - i,
        {
            self.send(bytes[i]);
            i = i + 1;
            proof {
                assert(bytes@.subrange(0, i as int) =~= bytes@.subrange(
                    0,
                    i - 1,
                ).push(bytes@[i - 1]));
                assert(self.sent@ =~= pre.sent@ + bytes@.subrange(0, i as int));
            }
        }
        proof {
            assert(bytes@.subrange(0, bytes@.len() as int) =~= bytes@);
        }
    }
}

} // verus!
