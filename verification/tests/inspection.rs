use ipaps::addr::IpAddr;
use ipaps::inspect::{
    advance, inspection_end, resolution, resolving, scan_end, worker_count, ScanOutcome, Stage,
};
use ipaps::ping::{ping_arguments, ping_outcome};
use ipaps::state::WorkerMessage;

const A: IpAddr = IpAddr::V4(0x01020304);
const B: IpAddr = IpAddr::V6(1);

fn error_text(message: &WorkerMessage) -> &str {
    match message {
        WorkerMessage::Error(text) => text,
        other => panic!("{:?}", other),
    }
}

#[test]
fn a_lookup_is_announced() {
    match resolving("example.com") {
        WorkerMessage::Status(text) => assert_eq!(text, "Resolving example.com..."),
        other => panic!("{:?}", other),
    }
}

#[test]
fn a_lookup_leads_to_sorted_addresses() {
    assert_eq!(resolution(Ok(vec![B, A, B])).unwrap(), vec![A, B]);
}

#[test]
fn a_lookup_can_fail() {
    let report = resolution(Err("no such host".to_string())).unwrap_err();
    assert_eq!(error_text(&report), "DNS resolution failed: no such host");
    let report = resolution(Ok(vec![])).unwrap_err();
    assert_eq!(error_text(&report), "No IP addresses were found.");
}

#[test]
fn the_number_of_workers_is_bounded() {
    assert_eq!(worker_count(0), 1);
    assert_eq!(worker_count(1), 1);
    assert_eq!(worker_count(128), 128);
    assert_eq!(worker_count(129), 128);
    assert_eq!(worker_count(512), 128);
}

#[test]
fn a_worker_probes_every_address() {
    let mut queue = vec![A, B];
    let mut stage = Stage::Idle;
    let mut seen = Vec::new();
    loop {
        stage = advance(stage, false, &mut queue);
        if stage == Stage::Stopped {
            break;
        }
        seen.push(stage);
    }
    assert_eq!(
        seen,
        vec![
            Stage::Ping(B),
            Stage::ReverseDns(B),
            Stage::Geolocate(B),
            Stage::Ping(A),
            Stage::ReverseDns(A),
            Stage::Geolocate(A),
        ]
    );
    assert!(queue.is_empty());
}

#[test]
fn a_cancelled_worker_takes_nothing() {
    for stage in [Stage::Idle, Stage::Ping(A), Stage::ReverseDns(A), Stage::Geolocate(A)] {
        let mut queue = vec![B];
        assert_eq!(advance(stage, true, &mut queue), Stage::Stopped);
        assert_eq!(queue, vec![B]);
    }
}

#[test]
fn two_workers_share_a_queue() {
    let mut queue = vec![A, B];
    let first = advance(Stage::Idle, false, &mut queue);
    let second = advance(Stage::Idle, false, &mut queue);
    let third = advance(Stage::Idle, false, &mut queue);
    assert_eq!((first, second, third), (Stage::Ping(B), Stage::Ping(A), Stage::Stopped));
}

#[test]
fn an_inspection_ends_with_a_report() {
    assert!(matches!(inspection_end(false), Some(WorkerMessage::Finished)));
    assert!(inspection_end(true).is_none());
}

#[test]
fn a_scan_ends_with_its_reports() {
    let reports = scan_end(A, ScanOutcome::Done, false);
    assert_eq!(reports.len(), 2);
    assert!(matches!(reports[0], WorkerMessage::PortScanFinished { ip } if ip == A));
    assert!(matches!(reports[1], WorkerMessage::Finished));
    assert!(scan_end(A, ScanOutcome::Done, true).is_empty());
    let reports = scan_end(A, ScanOutcome::Failed("broken".to_string()), true);
    assert_eq!(reports.len(), 1);
    assert_eq!(error_text(&reports[0]), "broken");
    let reports = scan_end(A, ScanOutcome::NoRuntime("no threads".to_string()), false);
    assert_eq!(reports.len(), 1);
    assert_eq!(error_text(&reports[0]), "Failed to create async runtime: no threads");
}

#[test]
fn ping_on_windows_counts_milliseconds() {
    assert_eq!(ping_arguments(A, 750, true), vec!["-n", "1", "-w", "750", "1.2.3.4"]);
    assert_eq!(ping_arguments(B, 750, true), vec!["-6", "-n", "1", "-w", "750", "::1"]);
}

#[test]
fn ping_elsewhere_counts_seconds() {
    assert_eq!(ping_arguments(A, 750, false), vec!["-c", "1", "-W", "1", "1.2.3.4"]);
    assert_eq!(ping_arguments(B, 1000, false), vec!["-6", "-c", "1", "-W", "1", "::1"]);
    assert_eq!(ping_arguments(A, 1001, false)[3], "2");
    assert_eq!(ping_arguments(A, 0, false)[3], "1");
    assert_eq!(ping_arguments(A, u64::MAX, false)[3], "18446744073709552");
}

#[test]
fn only_a_reply_has_a_time() {
    assert_eq!(ping_outcome(true, 12), (true, Some(12)));
    assert_eq!(ping_outcome(false, 12), (false, None));
}

#[test]
fn a_pool_probes_every_address_in_order() {
    let c = IpAddr::V4(7);
    let mut queue = vec![A, B, c];
    let mut stages = [Stage::Idle, Stage::Idle];
    let mut probes = Vec::new();
    let mut turn: usize = 0;
    while stages.iter().any(|s| *s != Stage::Stopped) {
        let worker = if turn % 3 == 0 { 0 } else { 1 };
        let next = advance(stages[worker], false, &mut queue);
        stages[worker] = next;
        if next != Stage::Stopped {
            probes.push(next);
        }
        turn += 1;
    }
    assert!(queue.is_empty());
    for ip in [A, B, c] {
        let about: Vec<Stage> = probes
            .iter()
            .copied()
            .filter(|s| {
                [Stage::Ping(ip), Stage::ReverseDns(ip), Stage::Geolocate(ip)].contains(s)
            })
            .collect();
        assert_eq!(about, vec![Stage::Ping(ip), Stage::ReverseDns(ip), Stage::Geolocate(ip)]);
    }
    assert_eq!(probes.len(), 9);
}
