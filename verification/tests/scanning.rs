use ipaps::scan::{classify, next_port, ConnectOutcome, PortScanState, PortState, TOTAL_PORTS};

#[test]
fn outcomes_are_judged() {
    assert_eq!(classify(ConnectOutcome::Connected), PortState::Open);
    assert_eq!(classify(ConnectOutcome::Refused), PortState::Closed);
    assert_eq!(classify(ConnectOutcome::Failed), PortState::Filtered);
    assert_eq!(classify(ConnectOutcome::TimedOut), PortState::Filtered);
}

#[test]
fn every_port_is_tried_once() {
    let mut last: u16 = 0;
    let mut count: usize = 0;
    while let Some(port) = next_port(last, false) {
        assert_eq!(port as usize, count + 1);
        last = port;
        count += 1;
    }
    assert_eq!(count, 65_535);
    assert_eq!(last, 65_535);
    assert_eq!(TOTAL_PORTS, 65_535);
}

#[test]
fn a_cancelled_scan_tries_no_more() {
    assert_eq!(next_port(0, true), None);
    assert_eq!(next_port(79, true), None);
    assert_eq!(next_port(79, false), Some(80));
}

#[test]
fn a_new_record_is_empty() {
    let scan = PortScanState::default();
    assert_eq!(scan.completed, 0);
    assert_eq!(scan.total, 65_535);
    assert_eq!((scan.open, scan.closed, scan.filtered), (0, 0, 0));
    assert!(!scan.finished);
    assert!(scan.open_ports.is_empty());
    assert_eq!(scan.started_at, None);
}

#[test]
fn verdicts_are_counted_and_open_ports_sorted() {
    let mut scan = PortScanState::started(10, 5);
    for (port, state) in [
        (443, PortState::Open),
        (22, PortState::Open),
        (23, PortState::Closed),
        (80, PortState::Open),
        (22, PortState::Open),
        (25, PortState::Filtered),
    ] {
        assert!(scan.has_room(state));
        scan.record(port, state);
    }
    assert_eq!(scan.open_ports, vec![22, 80, 443]);
    assert_eq!((scan.open, scan.closed, scan.filtered), (4, 1, 1));
    assert_eq!(scan.completed, 6);
    assert_eq!(scan.remaining(), 4);
    scan.finish();
    assert_eq!(scan.completed, 10);
    assert!(scan.finished);
    assert_eq!(scan.remaining(), 0);
}

#[test]
fn counters_have_room_until_they_are_full() {
    let mut scan = PortScanState::started(1, 0);
    scan.closed = usize::MAX;
    assert!(!scan.has_room(PortState::Closed));
    assert!(scan.has_room(PortState::Open));
    scan.completed = usize::MAX;
    assert!(!scan.has_room(PortState::Open));
}

#[test]
fn a_list_out_of_order_is_put_in_order() {
    let mut scan = PortScanState::default();
    scan.open_ports = vec![9, 3, 7];
    scan.record(5, PortState::Open);
    assert_eq!(scan.open_ports, vec![3, 5, 7, 9]);
}

#[test]
fn time_runs_from_the_start() {
    let scan = PortScanState::started(10, 100);
    assert_eq!(scan.elapsed(150), Some(50));
    assert_eq!(scan.elapsed(100), None);
    assert_eq!(scan.elapsed(99), None);
    assert_eq!(PortScanState::default().elapsed(7), None);
}
