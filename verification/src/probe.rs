//! The debug-probe channel transport: bytes go to a host-debugger
//! communication primitive that may accept only part of what it is offered.

use crate::sim::next_cursor;
use vstd::prelude::*;

verus! {

/// How many of `n` offered bytes the `i`-th call into the probe primitive
/// accepts: at most the next scripted cap, everything once the script is
/// exhausted. The primitive always takes a prefix of what it is offered.
pub open spec fn probe_accept(caps: Seq<usize>, i: int, n: int) -> int {
    if 0 <= i < caps.len() {
        if n <= caps[i] {
            n
        } else {
            caps[i] as int
        }
    } else {
        n
    }
}

/// The host-probe communication primitive, modelled by the bytes it has
/// accepted and a script of per-call acceptance caps.
pub struct ProbeChannel {
    /// Every byte the probe has accepted, in order.
    pub taken: Vec<u8>,
    /// Scripted caps on how many bytes successive calls accept.
    pub caps: Vec<usize>,
    /// How many script entries have been consumed.
    pub calls: usize,
}

/// What one probe write leaves behind: one attempt with the full slice and,
/// if the probe accepted only part of it, exactly one retry with the
/// remaining suffix. The bytes that reach the probe are a prefix of the
/// input, in order; what the second attempt could not place is dropped.
pub open spec fn probe_write_post(pre: ProbeChannel, post: ProbeChannel, bytes: Seq<u8>) -> bool {
    let c1 = probe_accept(pre.caps@, pre.calls as int, bytes.len() as int);
    let r1 = next_cursor(pre.caps@.len() as int, pre.calls as int);
    &&& post.caps@ == pre.caps@
    &&& if c1 == bytes.len() {
        post.taken@ == pre.taken@ + bytes && post.calls as int == r1
    } else {
        let c2 = probe_accept(pre.caps@, r1, bytes.len() - c1);
        post.taken@ == pre.taken@ + bytes.take(c1 + c2) && post.calls as int == next_cursor(
            pre.caps@.len() as int,
            r1,
        )
    }
}

impl ProbeChannel {
    /// The cap-script cursor never points past the script.
    pub open spec fn wf(self) -> bool {
        self.calls <= self.caps.len()
    }

    /// One call into the host-probe primitive: offer `bytes[from..]`; it
    /// accepts a prefix and reports how many bytes it took.
    fn push(&mut self, bytes: &[u8], from: usize) -> (n: usize)
        requires
            old(self).wf(),
            from <= bytes@.len(),
        ensures
            final(self).wf(),
            final(self).caps@ == old(self).caps@,
            n as int == probe_accept(old(self).caps@, old(self).calls as int, bytes@.len() - from),
            final(self).calls as int == next_cursor(
                old(self).caps@.len() as int,
                old(self).calls as int,
            ),
            final(self).taken@ == old(self).taken@ + bytes@.subrange(from as int, from + n),
    {
        let rem = bytes.len() - from;
        let n = if self.calls < self.caps.len() {
            let cap = self.caps[self.calls];
            self.calls = self.calls + 1;
            if rem <= cap {
                rem
            } else {
                cap
            }
        } else {
            rem
        };
        let ghost mid = *self;
        let mut i: usize = 0;
        while i < n
            invariant
                i <= n,
                from + n <= bytes@.len() <= usize::MAX,
                self.caps@ == mid.caps@,
                self.calls == mid.calls,
                self.taken@ == mid.taken@ + bytes@.subrange(from as int, from + i),
            decreases n - i,
        {
            self.taken.push(bytes[from + i]);
            i = i + 1;
            proof {
                assert(bytes@.subrange(from as int, from + i) =~= bytes@.subrange(
                    from as int,
                    from + i - 1,
                ).push(bytes@[from + i - 1]));
                assert(self.taken@ =~= mid.taken@ + bytes@.subrange(from as int, from + i));
            }
        }
        proof {
            assert(bytes@.subrange(from as int, from as int) =~= Seq::<u8>::empty());
            assert(mid.taken@ + Seq::<u8>::empty() =~= mid.taken@);
        }
        n
    }

    /// Best-effort write: attempt the full slice; if fewer bytes were
    /// accepted than offered, retry once with exactly the remaining suffix,
    /// then give up — a disconnected or full probe drops output silently
    /// rather than blocking.
    pub fn write(&mut self, bytes: &[u8])
        requires
            old(self).wf(),
        ensures
            final(self).wf(),
            probe_write_post(*old(self), *final(self), bytes@),
    {
        let ghost pre = *self;
        let n = self.push(bytes, 0);
        if n < bytes.len() {
            let ghost mid = *self;
            let m = self.push(bytes, n);
            proof {
                assert(self.taken@ =~= pre.taken@ + bytes@.take(n + m));
            }
        } else {
            proof {
                assert(bytes@.subrange(0, bytes@.len() as int) =~= bytes@);
            }
        }
    }
}

} // verus!
