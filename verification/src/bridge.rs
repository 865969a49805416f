//! The on-chip serial-bridge peripheral transport.
//!
//! The peripheral is modelled as a register file whose observable activity
//! is an event log: every byte written to the FIFO data register and every
//! commit written to the control register is recorded in order. Status reads
//! are answered from a script, then from a fixed fallback once the script is
//! exhausted, so one model can act as an always-ready, a never-ready or a
//! stalling peripheral.

use crate::sim::{chunk_len, next_cursor, num_chunks};
use vstd::prelude::*;

verus! {

/// Both low status bits clear is the "not connected / FIFO not ready"
/// pattern; anything else reports ready.
pub open spec fn ready(v: u32) -> bool {
    v & 0b011 != 0b000
}

/// The answer to the status read at script cursor `i`: the script while it
/// lasts, the fallback value forever after.
pub open spec fn resp(script: Seq<u32>, fallback: u32, i: int) -> u32 {
    if 0 <= i < script.len() {
        script[i]
    } else {
        fallback
    }
}

/// One observable action on the serial-bridge register file.
#[derive(Clone, Copy, Debug, PartialEq, Eq, Structural)]
pub enum BridgeEvent {
    /// A byte written to the FIFO data register.
    Data(u8),
    /// A commit pattern written to the control register.
    Flush,
}

/// Acknowledgment wait: scan up to `budget` status reads starting at cursor
/// `r`; the result is the cursor after the scan and whether a ready status
/// was seen before the budget ran out.
pub open spec fn poll_scan(script: Seq<u32>, fallback: u32, r: int, budget: int) -> (int, bool)
    decreases budget,
{
    if budget <= 0 {
        (r, false)
    } else if ready(resp(script, fallback, r)) {
        (next_cursor(script.len() as int, r), true)
    } else {
        poll_scan(script, fallback, next_cursor(script.len() as int, r), budget - 1)
    }
}

/// The events one chunk leaves in the log: its bytes in order, then one
/// flush (the commit written to the control register).
pub open spec fn chunk_events(chunk: Seq<u8>) -> Seq<BridgeEvent> {
    chunk.map_values(|b: u8| BridgeEvent::Data(b)).push(BridgeEvent::Flush)
}

/// The chunk loop, started at status cursor `r`: the events appended to the
/// log and the final cursor. Each chunk is filled and flushed, then
/// acknowledged within the poll budget; on a timeout the whole write stops
/// and the remaining chunks are never sent.
pub open spec fn bridge_run(
    bytes: Seq<u8>,
    script: Seq<u32>,
    fallback: u32,
    r: int,
    burst: int,
    budget: int,
) -> (Seq<BridgeEvent>, int)
    decreases bytes.len(),
{
    if bytes.len() == 0 {
        (Seq::<BridgeEvent>::empty(), r)
    } else {
        let c = chunk_len(bytes.len() as int, burst);
        let ev = chunk_events(bytes.take(c));
        let (r1, ok) = poll_scan(script, fallback, r, budget);
        if !ok {
            (ev, r1)
        } else {
            let (rest, r2) = bridge_run(bytes.skip(c), script, fallback, r1, burst, budget);
            (ev + rest, r2)
        }
    }
}

/// The event stream of a transfer that is never interrupted: the bytes
/// split, in order, into chunks of exactly the burst size (the last chunk
/// possibly shorter), each chunk's bytes followed by one flush.
pub open spec fn chunked_events(bytes: Seq<u8>, burst: int) -> Seq<BridgeEvent>
    decreases bytes.len(),
{
    if bytes.len() == 0 {
        Seq::<BridgeEvent>::empty()
    } else {
        let c = chunk_len(bytes.len() as int, burst);
        chunk_events(bytes.take(c)) + chunked_events(bytes.skip(c), burst)
    }
}

/// The data bytes an event log carries, in order.
pub open spec fn log_data(ev: Seq<BridgeEvent>) -> Seq<u8>
    decreases ev.len(),
{
    if ev.len() == 0 {
        Seq::<u8>::empty()
    } else {
        match ev[0] {
            BridgeEvent::Data(b) => seq![b] + log_data(ev.drop_first()),
            BridgeEvent::Flush => log_data(ev.drop_first()),
        }
    }
}

/// How many flushes an event log carries.
pub open spec fn log_flushes(ev: Seq<BridgeEvent>) -> int
    decreases ev.len(),
{
    if ev.len() == 0 {
        0
    } else {
        (match ev[0] {
            BridgeEvent::Flush => 1int,
            BridgeEvent::Data(_) => 0int,
        }) + log_flushes(ev.drop_first())
    }
}

/// Both projections distribute over concatenation.
pub proof fn lemma_log_projections_add(a: Seq<BridgeEvent>, b: Seq<BridgeEvent>)
    ensures
        log_data(a + b) == log_data(a) + log_data(b),
        log_flushes(a + b) == log_flushes(a) + log_flushes(b),
    decreases a.len(),
{
    if a.len() == 0 {
        assert(a + b =~= b);
        assert(log_data(a) + log_data(b) =~= log_data(b));
    } else {
        assert((a + b).drop_first() =~= a.drop_first() + b);
        lemma_log_projections_add(a.drop_first(), b);
        assert((a + b)[0] == a[0]);
        match a[0] {
            BridgeEvent::Data(x) => {
                assert(seq![x] + (log_data(a.drop_first()) + log_data(b)) =~= (seq![x] + log_data(
                    a.drop_first(),
                )) + log_data(b));
            },
            BridgeEvent::Flush => {},
        }
    }
}

/// One chunk's events carry exactly its bytes, and exactly one flush.
pub proof fn lemma_chunk_events_shape(chunk: Seq<u8>)
    ensures
        log_data(chunk_events(chunk)) == chunk,
        log_flushes(chunk_events(chunk)) == 1,
    decreases chunk.len(),
{
    let ev = chunk_events(chunk);
    if chunk.len() == 0 {
        assert(ev =~= seq![BridgeEvent::Flush]);
        assert(ev[0] == BridgeEvent::Flush);
        assert(ev.drop_first() =~= Seq::<BridgeEvent>::empty());
        assert(log_data(Seq::<BridgeEvent>::empty()) == Seq::<u8>::empty());
        assert(log_flushes(Seq::<BridgeEvent>::empty()) == 0);
    } else {
        lemma_chunk_events_shape(chunk.drop_first());
        assert(ev.drop_first() =~= chunk_events(chunk.drop_first()));
        assert(ev[0] == BridgeEvent::Data(chunk[0]));
        assert(seq![chunk[0]] + chunk.drop_first() =~= chunk);
    }
}

/// Law: the uninterrupted event stream carries every input byte, in order,
/// and one flush per chunk.
pub proof fn lemma_chunked_events_shape(bytes: Seq<u8>, burst: int)
    ensures
        log_data(chunked_events(bytes, burst)) == bytes,
        log_flushes(chunked_events(bytes, burst)) == num_chunks(bytes.len() as int, burst),
    decreases bytes.len(),
{
    if bytes.len() == 0 {
    } else {
        let c = chunk_len(bytes.len() as int, burst);
        lemma_chunked_events_shape(bytes.skip(c), burst);
        lemma_chunk_events_shape(bytes.take(c));
        lemma_log_projections_add(chunk_events(bytes.take(c)), chunked_events(bytes.skip(c), burst));
        assert(bytes.take(c) + bytes.skip(c) =~= bytes);
    }
}

/// Law: against a peripheral that always reports ready, a write's chunk loop
/// emits every byte — split, in order, into chunks of exactly the burst size
/// (last chunk possibly shorter), with one flush per chunk — because every
/// acknowledgment wait succeeds on its first poll.
pub proof fn lemma_always_ready_sends_all(
    bytes: Seq<u8>,
    script: Seq<u32>,
    fallback: u32,
    r: int,
    burst: int,
    budget: int,
)
    requires
        forall|i: int| ready(#[trigger] resp(script, fallback, i)),
        budget >= 1,
    ensures
        bridge_run(bytes, script, fallback, r, burst, budget).0 == chunked_events(bytes, burst),
    decreases bytes.len(),
{
    if bytes.len() == 0 {
    } else {
        let c = chunk_len(bytes.len() as int, burst);
        assert(ready(resp(script, fallback, r)));
        assert(poll_scan(script, fallback, r, budget) == (
            next_cursor(script.len() as int, r),
            true,
        ));
        lemma_always_ready_sends_all(
            bytes.skip(c),
            script,
            fallback,
            next_cursor(script.len() as int, r),
            burst,
            budget,
        );
    }
}

/// A scan that starts at or past `r0` finds no ready status when every
/// answer from `r0` on reports not ready.
pub proof fn lemma_poll_scan_stalls(script: Seq<u32>, fallback: u32, r0: int, r: int, budget: int)
    requires
        r >= r0,
        forall|i: int| i >= r0 ==> !ready(#[trigger] resp(script, fallback, i)),
    ensures
        !poll_scan(script, fallback, r, budget).1,
    decreases budget,
{
    if budget <= 0 {
    } else {
        assert(!ready(resp(script, fallback, r)));
        lemma_poll_scan_stalls(
            script,
            fallback,
            r0,
            next_cursor(script.len() as int, r),
            budget - 1,
        );
    }
}

/// Law: a peripheral that acknowledges nothing truncates the write to its
/// first chunk. The chunk loop fills and flushes the first chunk, the
/// acknowledgment wait exhausts its budget, and no later chunk is ever sent
/// — a timeout truncates, it does not retry.
pub proof fn lemma_stalled_after_first_chunk(
    bytes: Seq<u8>,
    script: Seq<u32>,
    fallback: u32,
    r: int,
    burst: int,
    budget: int,
)
    requires
        bytes.len() > 0,
        forall|i: int| i >= r ==> !ready(#[trigger] resp(script, fallback, i)),
    ensures
        bridge_run(bytes, script, fallback, r, burst, budget).0 == chunk_events(
            bytes.take(chunk_len(bytes.len() as int, burst)),
        ),
{
    lemma_poll_scan_stalls(script, fallback, r, r, budget);
}

/// Law: a write against a peripheral that always reports ready emits every
/// byte — split, in order, into chunks of exactly the burst size (last chunk
/// possibly shorter), with one flush per chunk. Stated from the write's own
/// postcondition `bridge_write_post`.
pub proof fn lemma_write_always_ready(pre: SerialBridge, post: SerialBridge, bytes: Seq<u8>)
    requires
        pre.wf(),
        pre.budget >= 1,
        bridge_write_post(pre, post, bytes),
        forall|i: int| ready(#[trigger] resp(pre.script@, pre.fallback, i)),
    ensures
        post.log@ == pre.log@ + chunked_events(bytes, pre.burst as int),
        log_data(chunked_events(bytes, pre.burst as int)) == bytes,
        log_flushes(chunked_events(bytes, pre.burst as int)) == num_chunks(
            bytes.len() as int,
            pre.burst as int,
        ),
{
    lemma_always_ready_sends_all(
        bytes,
        pre.script@,
        pre.fallback,
        next_cursor(pre.script@.len() as int, pre.reads as int),
        pre.burst as int,
        pre.budget as int,
    );
    lemma_chunked_events_shape(bytes, pre.burst as int);
}

/// Law: against a peripheral that reports not ready from the start, a write
/// emits nothing at all — no byte reaches the data register and no flush is
/// issued; only the one readiness check happened. Stated from the write's
/// own postcondition `bridge_write_post`.
pub proof fn lemma_write_not_ready_emits_nothing(
    pre: SerialBridge,
    post: SerialBridge,
    bytes: Seq<u8>,
)
    requires
        bridge_write_post(pre, post, bytes),
        !ready(resp(pre.script@, pre.fallback, pre.reads as int)),
    ensures
        post.log@ == pre.log@,
        post.reads as int == next_cursor(pre.script@.len() as int, pre.reads as int),
{
}

/// Law: a peripheral that is ready at the first check but never acknowledges
/// afterwards receives exactly the first chunk — filled and flushed — and
/// the write then halts: the timeout truncates, it does not retry. Stated
/// from the write's own postcondition `bridge_write_post`.
pub proof fn lemma_write_stalls_after_first_chunk(
    pre: SerialBridge,
    post: SerialBridge,
    bytes: Seq<u8>,
)
    requires
        pre.wf(),
        bytes.len() > 0,
        bridge_write_post(pre, post, bytes),
        pre.reads < pre.script@.len(),
        ready(resp(pre.script@, pre.fallback, pre.reads as int)),
        forall|i: int| i > pre.reads ==> !ready(#[trigger] resp(pre.script@, pre.fallback, i)),
    ensures
        post.log@ == pre.log@ + chunk_events(
            bytes.take(chunk_len(bytes.len() as int, pre.burst as int)),
        ),
{
    lemma_stalled_after_first_chunk(
        bytes,
        pre.script@,
        pre.fallback,
        pre.reads + 1,
        pre.burst as int,
        pre.budget as int,
    );
}

/// The serial-bridge peripheral model together with the transport
/// configuration that drives it: the status script and its read cursor, the
/// FIFO burst size, the acknowledgment poll budget, and the log of register
/// activity.
pub struct SerialBridge {
    /// Scripted answers to successive status-register reads.
    pub script: Vec<u32>,
    /// Status answered once the script is exhausted.
    pub fallback: u32,
    /// How many script entries have been consumed.
    pub reads: usize,
    /// Largest number of bytes the FIFO accepts per handshake.
    pub burst: usize,
    /// Iteration bound of the acknowledgment wait.
    pub budget: u32,
    /// Observable register activity, in order.
    pub log: Vec<BridgeEvent>,
}

/// The configuration registers and the script are read-only for the
/// lifetime of the model; only the log and the script cursor move.
pub open spec fn same_device(a: SerialBridge, b: SerialBridge) -> bool {
    a.script@ == b.script@ && a.fallback == b.fallback && a.burst == b.burst && a.budget == b.budget
}

/// What one write leaves behind: the configuration unchanged; if the first
/// readiness check fails, nothing at all is written (the log is unchanged);
/// otherwise the chunk loop's events are appended and the status cursor
/// advances with it.
pub open spec fn bridge_write_post(pre: SerialBridge, post: SerialBridge, bytes: Seq<u8>) -> bool {
    &&& same_device(pre, post)
    &&& if !ready(resp(pre.script@, pre.fallback, pre.reads as int)) {
        post.log@ == pre.log@ && post.reads as int == next_cursor(
            pre.script@.len() as int,
            pre.reads as int,
        )
    } else {
        let (ev, r) = bridge_run(
            bytes,
            pre.script@,
            pre.fallback,
            next_cursor(pre.script@.len() as int, pre.reads as int),
            pre.burst as int,
            pre.budget as int,
        );
        post.log@ == pre.log@ + ev && post.reads as int == r
    }
}

impl SerialBridge {
    /// Chunks make progress and the script cursor never points past the
    /// script.
    pub open spec fn wf(self) -> bool {
        self.burst >= 1 && self.reads <= self.script@.len()
    }

    /// Read the status register: the next scripted answer, or the fallback
    /// once the script is exhausted.
    fn read_status(&mut self) -> (v: u32)
        requires
            old(self).wf(),
        ensures
            final(self).wf(),
            same_device(*old(self), *final(self)),
            final(self).log@ == old(self).log@,
            v == resp(old(self).script@, old(self).fallback, old(self).reads as int),
            final(self).reads as int == next_cursor(
                old(self).script@.len() as int,
                old(self).reads as int,
            ),
    {
        if self.reads < self.script.len() {
            let v = self.script[self.reads];
            self.reads = self.reads + 1;
            v
        } else {
            self.fallback
        }
    }

    /// Fill: write `bytes[from..end]` into the FIFO data register, in order.
    fn fill_chunk(&mut self, bytes: &[u8], from: usize, end: usize)
        requires
            old(self).wf(),
            from <= end <= bytes@.len(),
        ensures
            final(self).wf(),
            same_device(*old(self), *final(self)),
            final(self).reads == old(self).reads,
            final(self).log@ == old(self).log@ + bytes@.subrange(from as int, end as int).map_values(
                |b: u8| BridgeEvent::Data(b),
            ),
    {
        let ghost pre = *self;
        let mut i: usize = from;
        while i < end
            invariant
                self.wf(),
                from <= i <= end <= bytes@.len(),
                same_device(pre, *self),
                self.reads == pre.reads,
                self.log@ == pre.log@ + bytes@.subrange(from as int, i as int).map_values(
                    |b: u8| BridgeEvent::Data(b),
                ),
            decreases end - i,
        {
            self.log.push(BridgeEvent::Data(bytes[i]));
            i = i + 1;
            proof {
                assert(bytes@.subrange(from as int, i as int) =~= bytes@.subrange(
                    from as int,
                    i - 1,
                ).push(bytes@[i - 1]));
                assert(self.log@ =~= pre.log@ + bytes@.subrange(from as int, i as int).map_values(
                    |b: u8| BridgeEvent::Data(b),
                ));
            }
        }
    }

    /// Acknowledgment wait: poll the status register until it leaves the
    /// not-ready pattern, for at most the poll budget.
    fn poll_ack(&mut self) -> (ok: bool)
        requires
            old(self).wf(),
        ensures
            final(self).wf(),
            same_device(*old(self), *final(self)),
            final(self).log@ == old(self).log@,
            ({
                let (r, found) = poll_scan(
                    old(self).script@,
                    old(self).fallback,
                    old(self).reads as int,
                    old(self).budget as int,
                );
                ok == found && final(self).reads as int == r
            }),
    {
        let ghost pre = *self;
        let mut i: u32 = 0;
        while i < self.budget
            invariant
                self.wf(),
                pre == *old(self),
                i <= pre.budget,
                same_device(pre, *self),
                self.log@ == pre.log@,
                poll_scan(pre.script@, pre.fallback, pre.reads as int, pre.budget as int)
                    == poll_scan(
                    self.script@,
                    self.fallback,
                    self.reads as int,
                    pre.budget - i,
                ),
            decreases pre.budget - i,
        {
            let s = self.read_status();
            i = i + 1;
            if s & 0b011 != 0b000 {
                return true;
            }
        }
        false
    }

    /// The chunk loop from offset `from`: fill, flush, await acknowledgment;
    /// continue with the next chunk, or stop the whole write on a timeout.
    fn write_chunks(&mut self, bytes: &[u8], from: usize)
        requires
            old(self).wf(),
            from <= bytes@.len(),
        ensures
            final(self).wf(),
            same_device(*old(self), *final(self)),
            ({
                let (ev, r) = bridge_run(
                    bytes@.skip(from as int),
                    old(self).script@,
                    old(self).fallback,
                    old(self).reads as int,
                    old(self).burst as int,
                    old(self).budget as int,
                );
                final(self).log@ == old(self).log@ + ev && final(self).reads as int == r
            }),
        decreases bytes@.len() - from,
    {
        if from == bytes.len() {
            proof {
                assert(bytes@.skip(from as int) =~= Seq::<u8>::empty());
                assert(self.log@ =~= self.log@ + Seq::<BridgeEvent>::empty());
            }
            return ;
        }
        let ghost pre = *self;
        let ghost rem = bytes@.skip(from as int);
        let end = if bytes.len() - from <= self.burst {
            bytes.len()
        } else {
            from + self.burst
        };
        let ghost c = chunk_len(rem.len() as int, pre.burst as int);
        proof {
            assert(end - from == c);
            assert(rem.take(c) =~= bytes@.subrange(from as int, end as int));
        }
        self.fill_chunk(bytes, from, end);
        self.log.push(BridgeEvent::Flush);
        proof {
            assert(self.log@ =~= pre.log@ + chunk_events(rem.take(c)));
        }
        let ok = self.poll_ack();
        if ok {
            self.write_chunks(bytes, end);
            proof {
                assert(bytes@.skip(end as int) =~= rem.skip(c));
                let (ev, r) = bridge_run(
                    rem,
                    pre.script@,
                    pre.fallback,
                    pre.reads as int,
                    pre.burst as int,
                    pre.budget as int,
                );
                assert(self.log@ =~= pre.log@ + ev);
            }
        }
    }

    /// Best-effort write, executed as one protocol run: a readiness check
    /// that aborts at once when no host is attached; then, per chunk of at
    /// most `burst` bytes: fill the FIFO, commit, and poll for the
    /// acknowledgment within the budget, stopping the whole write on a
    /// timeout. Truncation is silent — no error reaches the caller.
    pub fn write(&mut self, bytes: &[u8])
        requires
            old(self).wf(),
        ensures
            final(self).wf(),
            bridge_write_post(*old(self), *final(self), bytes@),
    {
        let s = self.read_status();
        if s & 0b011 == 0b000 {
            return ;
        }
        self.write_chunks(bytes, 0);
        proof {
            assert(bytes@.skip(0) =~= bytes@);
        }
    }
}

} // verus!
