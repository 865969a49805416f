//! A minimal debug-output sink for microcontrollers: bytes handed to the
//! sink become register activity on exactly one of several mutually
//! exclusive transports — best-effort, never an error, and with every
//! hardware poll loop bounded by a fixed budget (the one exception, by
//! design, is the direct-register UART's completion wait).
//!
//! Each transport drives a peripheral that is modelled explicitly: a register
//! file whose observable activity is an event log and whose status reads are
//! answered from a script. The per-transport protocols — chunking, readiness
//! handshakes, bounded busy-waits, the single retry of the probe channel —
//! are verified against those models. An optional mutual-exclusion wrapper
//! runs every write inside a critical section so that a multi-byte write is
//! never interleaved with another.

use vstd::prelude::*;

pub mod sim;

pub mod bridge;

pub mod probe;

pub mod uart;

use crate::bridge::{bridge_write_post, SerialBridge};
use crate::probe::{probe_write_post, ProbeChannel};
use crate::uart::{uart_run, DirectUart, RomUart};
use vstd::string::StringSliceAdditionalSpecFns;

verus! {

/// The one transport compiled into a build, with the peripheral state it
/// drives. Exactly one is selected when the sink is constructed.
pub enum Transport {
    /// Debug-probe channel to a host debugger.
    Probe(ProbeChannel),
    /// On-chip serial-bridge peripheral.
    Bridge(SerialBridge),
    /// Legacy UART through the boot-ROM transmit routine.
    Rom(RomUart),
    /// Legacy UART through the raw registers (one chip variant).
    Direct(DirectUart),
}

/// Validity of the selected transport's state.
pub open spec fn transport_wf(t: Transport) -> bool {
    match t {
        Transport::Probe(d) => d.wf(),
        Transport::Bridge(d) => d.wf(),
        Transport::Rom(_) => true,
        Transport::Direct(d) => d.wf(),
    }
}

/// What one write leaves on the active transport: its own protocol's
/// postcondition. The transport itself is never exchanged for another.
pub open spec fn transport_write_post(pre: Transport, post: Transport, bytes: Seq<u8>) -> bool {
    match (pre, post) {
        (Transport::Probe(d0), Transport::Probe(d1)) => probe_write_post(d0, d1, bytes),
        (Transport::Bridge(d0), Transport::Bridge(d1)) => bridge_write_post(d0, d1, bytes),
        (Transport::Rom(d0), Transport::Rom(d1)) => d1.sent@ == d0.sent@ + bytes,
        (Transport::Direct(d0), Transport::Direct(d1)) => d1.ready_after == d0.ready_after
            && d1.log@ == d0.log@ + uart_run(bytes, d0.ready_after as int),
        _ => false,
    }
}

/// Drive the active transport's write protocol.
fn write_transport(t: &mut Transport, bytes: &[u8])
    requires
        transport_wf(*old(t)),
    ensures
        transport_wf(*final(t)),
        transport_write_post(*old(t), *final(t), bytes@),
{
    match t {
        Transport::Probe(d) => d.write(bytes),
        Transport::Bridge(d) => d.write(bytes),
        Transport::Rom(d) => d.write(bytes),
        Transport::Direct(d) => d.write(bytes),
    }
}

/// Mutual-exclusion wrapper around one whole transport write.
///
/// Relies on `critical_section::with` of the `critical-section` crate: it
/// acquires the configured critical section, runs the given closure exactly
/// once, releases, and returns the closure's result. The closure here is one
/// call of the verified `write_transport`, so that function's contract
/// carries over unchanged; the serialization against concurrent writers is
/// what the outside crate provides and is not modelled here.
#[verifier::external_body]
fn write_transport_exclusive(t: &mut Transport, bytes: &[u8])
    requires
        transport_wf(*old(t)),
    ensures
        transport_wf(*final(t)),
        transport_write_post(*old(t), *final(t), bytes@),
{
    critical_section::with(|_cs| write_transport(t, bytes))
}

/// The byte sink: the active transport, and whether the mutual-exclusion
/// wrapper is configured around it.
pub struct Printer {
    /// The one transport of this build.
    pub transport: Transport,
    /// Whether every write runs inside a critical section. Without it, the
    /// caller accepts that concurrent writes may interleave on the shared
    /// hardware registers.
    pub exclusive: bool,
}

impl Printer {
    /// Validity of the sink's state.
    pub open spec fn wf(self) -> bool {
        transport_wf(self.transport)
    }

    /// Run-time check of `wf`, for callers outside verified code.
    pub fn check_well_formed(&self) -> (r: bool)
        ensures
            r == self.wf(),
    {
        match &self.transport {
            Transport::Probe(d) => d.calls <= d.caps.len(),
            Transport::Bridge(d) => d.burst >= 1 && d.reads <= d.script.len(),
            Transport::Rom(_) => true,
            Transport::Direct(d) => d.ready_after >= 1 && d.pending == 0,
        }
    }

    /// Accept a slice of bytes for best-effort emission: fire-and-forget,
    /// bounded time, never an error — the only failure mode is silent
    /// partial delivery, exactly as the active transport's postcondition
    /// states. With the mutual-exclusion capability configured, the whole
    /// write runs inside one critical section.
    pub fn write_bytes(&mut self, bytes: &[u8])
        requires
            old(self).wf(),
        ensures
            final(self).wf(),
            final(self).exclusive == old(self).exclusive,
            transport_write_post(old(self).transport, final(self).transport, bytes@),
    {
        if self.exclusive {
            write_transport_exclusive(&mut self.transport, bytes);
        } else {
            write_transport(&mut self.transport, bytes);
        }
    }

    /// Text-write adapter: encode the text as its byte representation and
    /// forward it unchanged — no transcoding, no buffering.
    pub fn write_str(&mut self, s: &str)
        requires
            old(self).wf(),
        ensures
            final(self).wf(),
            final(self).exclusive == old(self).exclusive,
            transport_write_post(old(self).transport, final(self).transport, s.spec_bytes()),
    {
        self.write_bytes(s.as_bytes());
    }
}

/// Law: when the mutual-exclusion wrapper is configured, two writes run one
/// after the other, never interleaved, so each call's activity stands in the
/// stream as one contiguous run, in call order. Stated over any event type:
/// `pre` is the stream before the calls, `a` and `b` are the extensions that
/// the two calls' postconditions give.
pub proof fn lemma_serialized_writes_contiguous<T>(pre: Seq<T>, a: Seq<T>, b: Seq<T>)
    ensures
        (pre + a) + b == pre + (a + b),
        ((pre + a) + b).subrange(pre.len() as int, (pre.len() + a.len()) as int) == a,
        ((pre + a) + b).subrange((pre.len() + a.len()) as int, ((pre + a) + b).len() as int) == b,
{
    assert((pre + a) + b =~= pre + (a + b));
    assert(((pre + a) + b).subrange(pre.len() as int, (pre.len() + a.len()) as int) =~= a);
    assert(((pre + a) + b).subrange((pre.len() + a.len()) as int, ((pre + a) + b).len() as int) =~= b);
}

/// The serialization law at the ROM-routine transport: its two hypotheses
/// are exactly what two serialized `RomUart::write` calls ensure, and the
/// wire then carries `a` and `b` as two contiguous, ordered runs.
pub proof fn lemma_rom_writes_contiguous(
    d0: RomUart,
    d1: RomUart,
    d2: RomUart,
    a: Seq<u8>,
    b: Seq<u8>,
)
    requires
        d1.sent@ == d0.sent@ + a,
        d2.sent@ == d1.sent@ + b,
    ensures
        d2.sent@ == d0.sent@ + (a + b),
        d2.sent@.subrange(d0.sent@.len() as int, (d0.sent@.len() + a.len()) as int) == a,
        d2.sent@.subrange((d0.sent@.len() + a.len()) as int, d2.sent@.len() as int) == b,
{
    lemma_serialized_writes_contiguous(d0.sent@, a, b);
}

} // verus!
