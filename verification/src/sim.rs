//! Pieces shared by the simulated-peripheral models: the saturating script
//! cursor and the chunk split used by the chunked transports.

use vstd::prelude::*;

verus! {

/// Advance a response-script cursor by one read, saturating at the script's
/// length: once the script is exhausted every further read is answered by a
/// fixed fallback, so the cursor need not move past the end.
pub open spec fn next_cursor(len: int, r: int) -> int {
    if r < len {
        r + 1
    } else {
        r
    }
}

/// Length of the next chunk of a transfer with `n` bytes left when at most
/// `burst` bytes fit in one hardware handshake. A degenerate burst below one
/// is treated as one, so a chunk always makes progress.
pub open spec fn chunk_len(n: int, burst: int) -> int {
    if burst < 1 {
        1
    } else if n <= burst {
        n
    } else {
        burst
    }
}

/// How many chunks a transfer of `n` bytes takes at the given burst size.
pub open spec fn num_chunks(n: int, burst: int) -> int
    decreases n,
{
    if n <= 0 {
        0
    } else {
        1 + num_chunks(n - chunk_len(n, burst), burst)
    }
}

/// A transfer no longer than one burst is a single chunk: input exactly at
/// the burst-size boundary takes one handshake cycle, not two.
pub proof fn lemma_single_chunk(n: int, burst: int)
    requires
        1 <= n <= burst,
    ensures
        num_chunks(n, burst) == 1,
{
    assert(chunk_len(n, burst) == n);
    assert(num_chunks(0, burst) == 0);
}

} // verus!
