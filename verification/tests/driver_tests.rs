use lps25hb::bus::BusEvent;
use lps25hb::driver::lps25hb_deselect;
use lps25hb::driver::lps25hb_init;
use lps25hb::driver::lps25hb_poll;
use lps25hb::driver::lps25hb_read_pressure;
use lps25hb::driver::lps25hb_select;
use lps25hb::driver::lps25hb_send;
use lps25hb::driver::lps25hb_send_buf;
use lps25hb::sim::SimBus;

#[test]
fn init_reports_expected_device() {
    let mut bus = SimBus::new(vec![0x00, 0xbd, 0x00, 0x00]);
    assert!(lps25hb_init(&mut bus));
}

#[test]
fn init_reports_mismatched_device() {
    for id in [0x00u8, 0xbc, 0xbe, 0xff] {
        let mut bus = SimBus::new(vec![0x00, id, 0x00, 0x00]);
        assert!(!lps25hb_init(&mut bus));
    }
}

#[test]
fn init_writes_ctrl_reg1_even_on_mismatch() {
    for id in [0xbdu8, 0x00, 0xbc] {
        let mut bus = SimBus::new(vec![0x00, id, 0x00, 0x00]);
        let ok = lps25hb_init(&mut bus);
        assert_eq!(ok, id == 0xbd);
        let trace = bus.trace();
        let wrote_ctrl = trace.iter().any(|ev| matches!(ev, BusEvent::Byte { sent: 0x20, .. }));
        let wrote_wake = trace.iter().any(|ev| matches!(ev, BusEvent::Byte { sent: 0x90, .. }));
        assert!(wrote_ctrl, "control register 1 was not addressed");
        assert!(wrote_wake, "wake-up value was not written");
    }
}

#[test]
fn init_trace_is_two_bracketed_transactions() {
    let mut bus = SimBus::new(vec![0xaa, 0xbd, 0x11, 0x22]);
    let ok = lps25hb_init(&mut bus);
    assert!(ok);
    let expected = vec![
        BusEvent::Select,
        BusEvent::Byte { sent: 0x8f, received: 0xaa },
        BusEvent::Byte { sent: 0x00, received: 0xbd },
        BusEvent::Deselect,
        BusEvent::Select,
        BusEvent::Byte { sent: 0x20, received: 0x11 },
        BusEvent::Byte { sent: 0x90, received: 0x22 },
        BusEvent::Deselect,
    ];
    assert_eq!(bus.trace(), &expected);
}

#[test]
fn read_trace_is_one_bracketed_transaction() {
    let mut bus = SimBus::new(vec![0xe8, 0x34, 0x12, 0x00]);
    let raw = lps25hb_read_pressure(&mut bus);
    // ((0x12 << 8) | 0x34) >> 12 = 0x1234 >> 12 = 1
    assert_eq!(raw, 1);
    let expected = vec![
        BusEvent::Select,
        BusEvent::Byte { sent: 0xe8, received: 0xe8 },
        BusEvent::Byte { sent: 0x00, received: 0x34 },
        BusEvent::Byte { sent: 0x00, received: 0x12 },
        BusEvent::Byte { sent: 0x00, received: 0x00 },
        BusEvent::Deselect,
    ];
    assert_eq!(bus.trace(), &expected);
}

#[test]
fn chip_select_low_exactly_during_transactions() {
    let mut bus = SimBus::new(vec![0x00, 0xbd, 0x00, 0x00, 0x00, 0x00, 0x10, 0x00]);
    let ok = lps25hb_init(&mut bus);
    assert!(ok);
    let raw = lps25hb_read_pressure(&mut bus);
    assert_eq!(raw, 1);
    assert!(!bus.chip_selected());
    let mut selected = false;
    for ev in bus.trace().iter() {
        match ev {
            BusEvent::Select => {
                assert!(!selected, "select while already selected");
                selected = true;
            }
            BusEvent::Deselect => {
                assert!(selected, "deselect while already deselected");
                selected = false;
            }
            BusEvent::Byte { .. } => {
                assert!(selected, "byte exchanged while chip-select reads high");
            }
        }
    }
    assert!(!selected, "a transaction was left open");
}

#[test]
fn end_to_end_init_then_pressure_read() {
    let mut bus = SimBus::new(vec![0x00, 0xbd, 0x00, 0x00, 0x00, 0x00, 0x10, 0x00]);
    assert!(lps25hb_init(&mut bus));
    // reply bytes [_, 0x00, 0x10, 0x00]: (0x10 << 8) >> 12 = 1
    assert_eq!(lps25hb_read_pressure(&mut bus), 1);
    assert_eq!(bus.replies_left(), 0);
}

#[test]
fn poll_decodes_one_reading_per_round() {
    let mut bus = SimBus::new(vec![
        0x00, 0x00, 0x10, 0x00, // (0x10 << 8) >> 12 = 1
        0x00, 0x00, 0x00, 0x01, // (1 << 16) >> 12 = 16
        0x00, 0xff, 0xff, 0x00, // 0xffff >> 12 = 15
    ]);
    let readings = lps25hb_poll(&mut bus, 3);
    assert_eq!(readings, vec![1, 16, 15]);
    assert_eq!(bus.replies_left(), 0);
    assert!(!bus.chip_selected());
}

#[test]
fn poll_of_zero_rounds_touches_nothing() {
    let mut bus = SimBus::new(vec![0x11, 0x22]);
    let readings = lps25hb_poll(&mut bus, 0);
    assert!(readings.is_empty());
    assert!(bus.trace().is_empty());
    assert_eq!(bus.replies_left(), 2);
}

#[test]
fn session_trace_stays_bracketed_over_many_rounds() {
    let mut script = vec![0x00, 0xbd, 0x00, 0x00];
    for round in 0..16u8 {
        script.extend_from_slice(&[0x00, round, round, round]);
    }
    let mut bus = SimBus::new(script);
    assert!(lps25hb_init(&mut bus));
    let readings = lps25hb_poll(&mut bus, 16);
    assert_eq!(readings.len(), 16);
    // 2 events per transaction bracket + the bytes: init is 2 transactions of
    // 2 bytes, each poll round is 1 transaction of 4 bytes.
    assert_eq!(bus.trace().len(), 8 + 16 * 6);
    let mut selected = false;
    for ev in bus.trace().iter() {
        match ev {
            BusEvent::Select => {
                assert!(!selected);
                selected = true;
            }
            BusEvent::Deselect => {
                assert!(selected);
                selected = false;
            }
            BusEvent::Byte { .. } => {
                assert!(selected, "byte exchanged while chip-select reads high");
            }
        }
    }
    assert!(!selected);
}

#[test]
fn send_returns_scripted_reply() {
    let mut bus = SimBus::new(vec![0x5a, 0xa5]);
    lps25hb_select(&mut bus);
    assert_eq!(lps25hb_send(&mut bus, 0x8f), 0x5a);
    assert_eq!(lps25hb_send(&mut bus, 0x00), 0xa5);
    lps25hb_deselect(&mut bus);
    assert_eq!(bus.trace()[1], BusEvent::Byte { sent: 0x8f, received: 0x5a });
}

#[test]
fn send_buf_exchanges_in_place() {
    let mut bus = SimBus::new(vec![9, 8, 7]);
    lps25hb_select(&mut bus);
    let mut buffer = vec![1u8, 2, 3];
    lps25hb_send_buf(&mut bus, &mut buffer);
    lps25hb_deselect(&mut bus);
    assert_eq!(buffer, vec![9, 8, 7]);
    let expected = vec![
        BusEvent::Select,
        BusEvent::Byte { sent: 1, received: 9 },
        BusEvent::Byte { sent: 2, received: 8 },
        BusEvent::Byte { sent: 3, received: 7 },
        BusEvent::Deselect,
    ];
    assert_eq!(bus.trace(), &expected);
}

#[test]
fn sim_bus_reports_line_and_script_state() {
    let mut bus = SimBus::new(vec![1, 2]);
    assert!(!bus.chip_selected());
    assert_eq!(bus.replies_left(), 2);
    lps25hb_select(&mut bus);
    assert!(bus.chip_selected());
    let first = lps25hb_send(&mut bus, 0);
    assert_eq!(first, 1);
    assert_eq!(bus.replies_left(), 1);
    lps25hb_deselect(&mut bus);
    assert!(!bus.chip_selected());
}
