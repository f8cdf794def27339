use clicky_core::sys::ipod4g::{Watchdog, WATCHDOG_HISTORY};

#[test]
fn parses_hex_and_decimal_numbers() {
    assert_eq!(Watchdog::parse_u32(" 0x1f "), Some(31));
    assert_eq!(Watchdog::parse_u32("0X10"), Some(16));
    assert_eq!(Watchdog::parse_u32("42"), Some(42));
    assert_eq!(Watchdog::parse_u32("+7"), Some(7));
    assert_eq!(Watchdog::parse_u32("4294967296"), None);
    assert_eq!(Watchdog::parse_u32("0x"), None);
    assert_eq!(Watchdog::parse_u32("nope"), None);
}

#[test]
fn parses_ranges_with_dots_or_dash() {
    assert_eq!(Watchdog::parse_u32_range("0x10..0x20"), Some((16, 32)));
    assert_eq!(Watchdog::parse_u32_range(" 5-9 "), Some((5, 9)));
    assert_eq!(Watchdog::parse_u32_range("5"), None);
    assert_eq!(Watchdog::parse_u32_range("a..9"), None);
}

#[test]
fn parses_trace_address_lists() {
    assert_eq!(Watchdog::parse_trace_addrs("0x10, 20,bad,,0x30"), vec![16, 20, 48]);
    assert!(Watchdog::parse_trace_addrs("").is_empty());
}

#[test]
fn inactive_without_probes() {
    assert!(Watchdog::from_settings(None, None, None, Vec::new(), 0).is_none());
    let w = Watchdog::from_settings(None, Some(5), None, Vec::new(), 7).expect("sampler on");
    assert_eq!(w.sample_every_ns, Some(5_000_000));
    assert_eq!(w.threshold_ns, (u64::MAX / 2) as u128 * 1_000_000);
    assert!(w.focus_contains(123));
}

#[test]
fn fires_once_for_a_tight_loop_in_focus() {
    let mut w = Watchdog::from_settings(Some(1), None, Some((0x1000, 0x2000)), Vec::new(), 0).unwrap();
    assert!(w.focus_contains(0x1800));
    assert!(!w.focus_contains(0x2001));
    let mut fired = 0;
    for i in 0..(WATCHDOG_HISTORY as u128 + 10) {
        let report = w.observe(i * 1_000_000, 0x1800, 0x4000_0000);
        if report.fire {
            fired += 1;
        }
    }
    assert_eq!(fired, 1);
    assert_eq!(w.pc_history.len(), WATCHDOG_HISTORY);
    let report = w.observe(10_000_000_000, 0x9000_0000, 0);
    assert!(!report.fire);
    assert!(!w.fired);
    assert_eq!(w.last_cpu_pc, 0x9000_0000);
}
