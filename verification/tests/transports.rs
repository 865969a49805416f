use esp_println::bridge::{BridgeEvent, SerialBridge};
use esp_println::probe::ProbeChannel;
use esp_println::uart::{DirectUart, RomUart, UartEvent};

fn bridge(script: Vec<u32>, fallback: u32, burst: usize, budget: u32) -> SerialBridge {
    SerialBridge { script, fallback, reads: 0, burst, budget, log: Vec::new() }
}

fn bytes(n: usize) -> Vec<u8> {
    let mut v = Vec::new();
    let mut i: usize = 0;
    while i < n {
        v.push((i % 251) as u8);
        i += 1;
    }
    v
}

fn chunked_expected(data: &[u8], burst: usize) -> Vec<BridgeEvent> {
    let mut ev = Vec::new();
    for chunk in data.chunks(burst) {
        for &b in chunk {
            ev.push(BridgeEvent::Data(b));
        }
        ev.push(BridgeEvent::Flush);
    }
    ev
}

#[test]
fn bridge_always_ready_one_chunk() {
    let mut dev = bridge(Vec::new(), 1, 64, 3);
    let data = bytes(10);
    dev.write(&data);
    assert_eq!(dev.log, chunked_expected(&data, 64));
}

#[test]
fn bridge_always_ready_chunk_boundary() {
    // exactly one burst is one chunk and one flush, not two
    let mut dev = bridge(Vec::new(), 1, 64, 3);
    let data = bytes(64);
    dev.write(&data);
    let expected = chunked_expected(&data, 64);
    assert_eq!(dev.log, expected);
    assert_eq!(dev.log.iter().filter(|e| **e == BridgeEvent::Flush).count(), 1);
}

#[test]
fn bridge_always_ready_three_bursts() {
    let mut dev = bridge(Vec::new(), 1, 64, 3);
    let data = bytes(192);
    dev.write(&data);
    let expected = chunked_expected(&data, 64);
    assert_eq!(dev.log, expected);
    assert_eq!(dev.log.iter().filter(|e| **e == BridgeEvent::Flush).count(), 3);
}

#[test]
fn bridge_always_ready_uneven_tail() {
    let mut dev = bridge(Vec::new(), 1, 64, 3);
    let data = bytes(150);
    dev.write(&data);
    assert_eq!(dev.log, chunked_expected(&data, 64));
}

#[test]
fn bridge_empty_write_checks_readiness_only() {
    let mut dev = bridge(vec![1], 1, 64, 3);
    dev.write(&[]);
    assert!(dev.log.is_empty());
    assert_eq!(dev.reads, 1);
}

#[test]
fn bridge_never_ready_emits_nothing() {
    // status always reports the not-ready pattern: the first readiness check
    // aborts the write; no data-register write, no flush, no polling
    let mut dev = bridge(vec![0, 0, 0, 0], 0, 64, 100);
    dev.write(&bytes(100));
    assert!(dev.log.is_empty());
    assert_eq!(dev.reads, 1);
}

#[test]
fn bridge_stall_after_first_flush_truncates() {
    // ready for the initial check, never again: exactly the first chunk is
    // filled and flushed, the wait times out, nothing is retried
    let mut dev = bridge(vec![1], 0, 4, 5);
    let data = bytes(10);
    dev.write(&data);
    assert_eq!(dev.log, chunked_expected(&data[..4], 4));
    assert_eq!(dev.reads, 1);
}

#[test]
fn bridge_recovers_within_budget() {
    // the first acknowledgment needs two polls, the second is instant
    let mut dev = bridge(vec![1, 0, 1], 1, 4, 3);
    let data = bytes(8);
    dev.write(&data);
    assert_eq!(dev.log, chunked_expected(&data, 4));
    assert_eq!(dev.reads, 3);
}

#[test]
fn rom_uart_each_byte_once_in_order() {
    let mut dev = RomUart { sent: Vec::new() };
    dev.write(&[5, 6, 7]);
    dev.write(&[8, 9]);
    assert_eq!(dev.sent, vec![5, 6, 7, 8, 9]);
}

#[test]
fn rom_uart_empty_write() {
    let mut dev = RomUart { sent: vec![1] };
    dev.write(&[]);
    assert_eq!(dev.sent, vec![1]);
}

fn direct_expected(data: &[u8], k: u32) -> Vec<UartEvent> {
    let mut ev = Vec::new();
    for chunk in data.chunks(64) {
        for &b in chunk {
            ev.push(UartEvent::Byte(b));
        }
        let mut i: u32 = 0;
        while i < k {
            ev.push(UartEvent::Poll);
            i += 1;
        }
        ev.push(UartEvent::Clear);
    }
    ev
}

#[test]
fn direct_uart_waits_k_polls_per_chunk() {
    // the completion flag reads ready on the third poll after each clear:
    // every chunk waits exactly three polls, then clears and advances
    let mut dev = DirectUart { ready_after: 3, pending: 0, log: Vec::new() };
    let data = bytes(130);
    dev.write(&data);
    assert_eq!(dev.log, direct_expected(&data, 3));
    assert_eq!(dev.pending, 0);
}

#[test]
fn direct_uart_instant_completion() {
    let mut dev = DirectUart { ready_after: 1, pending: 0, log: Vec::new() };
    let data = bytes(64);
    dev.write(&data);
    assert_eq!(dev.log, direct_expected(&data, 1));
}

#[test]
fn direct_uart_empty_write() {
    let mut dev = DirectUart { ready_after: 2, pending: 0, log: Vec::new() };
    dev.write(&[]);
    assert!(dev.log.is_empty());
}

#[test]
fn probe_accepts_all_when_unconstrained() {
    let mut dev = ProbeChannel { taken: Vec::new(), caps: Vec::new(), calls: 0 };
    let data = bytes(10);
    dev.write(&data);
    assert_eq!(dev.taken, data);
    assert_eq!(dev.calls, 0);
}

#[test]
fn probe_partial_then_retry_with_suffix() {
    // the first call takes three bytes; the single retry offers exactly the
    // remaining suffix, which a recovered probe then accepts whole
    let mut dev = ProbeChannel { taken: Vec::new(), caps: vec![3], calls: 0 };
    let data = bytes(10);
    dev.write(&data);
    assert_eq!(dev.taken, data);
    assert_eq!(dev.calls, 1);
}

#[test]
fn probe_gives_up_after_second_attempt() {
    // both calls are capped: whatever the retry could not place is dropped,
    // and what was delivered is a prefix, in order
    let mut dev = ProbeChannel { taken: Vec::new(), caps: vec![3, 2], calls: 0 };
    let data = bytes(10);
    dev.write(&data);
    assert_eq!(dev.taken, data[..5].to_vec());
    assert_eq!(dev.calls, 2);
}

#[test]
fn probe_rejecting_everything_drops_all() {
    let mut dev = ProbeChannel { taken: Vec::new(), caps: vec![0, 0], calls: 0 };
    dev.write(&bytes(4));
    assert!(dev.taken.is_empty());
    assert_eq!(dev.calls, 2);
}

#[test]
fn probe_empty_write() {
    let mut dev = ProbeChannel { taken: Vec::new(), caps: vec![5], calls: 0 };
    dev.write(&[]);
    assert!(dev.taken.is_empty());
    assert_eq!(dev.calls, 1);
}
