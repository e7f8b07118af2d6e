use nrf52840_aht20::diagnostic::{
    is_dfu_request, push_decimal, rail_polarity, report_scan, Probe, ProbeTally, RailPolarity,
    Scan, ScanResult, ScanStep,
};

/// Run a full sweep with `outcome(addr)` as the probe outcome at each address.
fn sweep(outcome: impl Fn(u8) -> Probe) -> (ScanResult, Vec<u8>) {
    let mut scan = Scan::new();
    let mut visited = Vec::new();
    loop {
        let addr = scan.address();
        visited.push(addr);
        match scan.record(outcome(addr)) {
            ScanStep::Next(s) => scan = s,
            ScanStep::Finished(r) => return (r, visited),
        }
    }
}

#[test]
fn scan_empty_bus_visits_every_address() {
    let (r, visited) = sweep(|_| Probe::AddressNack);
    assert_eq!(r, ScanResult { count: 0, found_aht: false, bus_dead: false });
    assert_eq!(visited, (0x08u8..=0x77).collect::<Vec<u8>>());
}

#[test]
fn scan_finds_aht20() {
    let (r, _) = sweep(|a| if a == 0x38 { Probe::Responded } else { Probe::AddressNack });
    assert_eq!(r, ScanResult { count: 1, found_aht: true, bus_dead: false });
}

#[test]
fn scan_counts_data_phase_errors_as_devices() {
    let (r, _) = sweep(|a| match a {
        0x38 => Probe::DataError,
        0x50 => Probe::Responded,
        _ => Probe::AddressNack,
    });
    assert_eq!(r, ScanResult { count: 2, found_aht: true, bus_dead: false });
}

#[test]
fn scan_dead_bus_bails_after_four_timeouts() {
    let (r, visited) = sweep(|_| Probe::TimedOut);
    assert_eq!(r, ScanResult { count: 0, found_aht: false, bus_dead: true });
    assert_eq!(visited, vec![0x08, 0x09, 0x0A, 0x0B]);
}

#[test]
fn scan_timeouts_after_a_device_do_not_bail() {
    let (r, visited) = sweep(|a| if a == 0x08 { Probe::Responded } else { Probe::TimedOut });
    assert_eq!(r, ScanResult { count: 1, found_aht: false, bus_dead: false });
    assert_eq!(visited.len(), 112);
}

#[test]
fn scan_nack_resets_timeout_run() {
    let (r, visited) = sweep(|a| if a % 4 == 0 { Probe::AddressNack } else { Probe::TimedOut });
    assert!(!r.bus_dead);
    assert_eq!(visited.len(), 112);
}

#[test]
fn report_scan_dead_bus() {
    let r = ScanResult { count: 0, found_aht: false, bus_dead: true };
    assert_eq!(
        report_scan("LOW", &r),
        "  P0.13=LOW: I\u{b2}C bus inactive (lines not pulled up \u{21d2} rail OFF in this state)"
    );
}

#[test]
fn report_scan_live_bus() {
    let r = ScanResult { count: 1, found_aht: true, bus_dead: false };
    assert_eq!(report_scan("HIGH", &r), "  P0.13=HIGH: 1 responder(s); AHT20(0x38) PRESENT");
    let r = ScanResult { count: 12, found_aht: false, bus_dead: false };
    assert_eq!(report_scan("LOW", &r), "  P0.13=LOW: 12 responder(s); AHT20(0x38) absent");
}

#[test]
fn push_decimal_renders_every_byte() {
    for n in 0..=255u8 {
        let mut s = String::from("x");
        push_decimal(&mut s, n);
        assert_eq!(s, format!("x{}", n));
    }
}

#[test]
fn rail_polarity_verdicts() {
    let yes = ScanResult { count: 1, found_aht: true, bus_dead: false };
    let no = ScanResult { count: 0, found_aht: false, bus_dead: true };
    assert_eq!(rail_polarity(&yes, &no), RailPolarity::OnWhenHigh);
    assert_eq!(rail_polarity(&no, &yes), RailPolarity::OnWhenLow);
    assert_eq!(rail_polarity(&yes, &yes), RailPolarity::Both);
    assert_eq!(rail_polarity(&no, &no), RailPolarity::Neither);
}

#[test]
fn probe_tally_counts_each_kind() {
    let mut t = ProbeTally::new();
    for p in [Probe::Responded, Probe::Responded, Probe::AddressNack, Probe::TimedOut, Probe::DataError] {
        t.record(p);
    }
    assert_eq!(t, ProbeTally { ok: 2, nack: 1, timeout: 1, other: 1 });
}

#[test]
fn dfu_request_detection() {
    assert!(is_dfu_request(b"dfu"));
    assert!(is_dfu_request(b"xxdfu\r\n"));
    assert!(!is_dfu_request(b"df"));
    assert!(!is_dfu_request(b"d f u"));
    assert!(!is_dfu_request(b""));
    assert!(!is_dfu_request(b"DFU"));
}
