use esp_println::bridge::{BridgeEvent, SerialBridge};
use esp_println::uart::RomUart;
use esp_println::{Printer, Transport};

fn rom_printer(exclusive: bool) -> Printer {
    Printer { transport: Transport::Rom(RomUart { sent: Vec::new() }), exclusive }
}

fn sent(p: &Printer) -> Vec<u8> {
    match &p.transport {
        Transport::Rom(d) => d.sent.clone(),
        _ => panic!("expected the ROM-routine transport"),
    }
}

#[test]
fn exclusive_writes_stay_contiguous() {
    // with the mutual-exclusion wrapper active, each write's bytes appear as
    // one contiguous, ordered run on the hardware stream
    let mut p = rom_printer(true);
    let a = [1u8, 2, 3];
    let b = [9u8, 8, 7, 6];
    p.write_bytes(&a);
    p.write_bytes(&b);
    let s = sent(&p);
    assert_eq!(s, vec![1, 2, 3, 9, 8, 7, 6]);
    assert_eq!(&s[0..3], &a);
    assert_eq!(&s[3..7], &b);
}

#[test]
fn plain_writes_forward_unchanged() {
    let mut p = rom_printer(false);
    p.write_bytes(&[10, 20]);
    p.write_bytes(&[30]);
    assert_eq!(sent(&p), vec![10, 20, 30]);
}

#[test]
fn exclusive_bridge_write_reaches_device() {
    let dev = SerialBridge {
        script: Vec::new(),
        fallback: 1,
        reads: 0,
        burst: 64,
        budget: 3,
        log: Vec::new(),
    };
    let mut p = Printer { transport: Transport::Bridge(dev), exclusive: true };
    p.write_bytes(&[42, 43]);
    match &p.transport {
        Transport::Bridge(d) => {
            assert_eq!(
                d.log,
                vec![BridgeEvent::Data(42), BridgeEvent::Data(43), BridgeEvent::Flush]
            );
        },
        _ => panic!("expected the serial-bridge transport"),
    }
}

#[test]
fn write_str_forwards_byte_representation() {
    let mut p = rom_printer(true);
    p.write_str("ok\n");
    assert_eq!(sent(&p), b"ok\n".to_vec());
}

#[test]
fn well_formedness_check_matches_state() {
    let good = SerialBridge {
        script: Vec::new(),
        fallback: 1,
        reads: 0,
        burst: 64,
        budget: 3,
        log: Vec::new(),
    };
    let p = Printer { transport: Transport::Bridge(good), exclusive: false };
    assert!(p.check_well_formed());

    let bad = SerialBridge {
        script: Vec::new(),
        fallback: 1,
        reads: 0,
        burst: 0,
        budget: 3,
        log: Vec::new(),
    };
    let q = Printer { transport: Transport::Bridge(bad), exclusive: false };
    assert!(!q.check_well_formed());
}
