use ipaps::addr::IpAddr;
use ipaps::display::ScanRate;
use ipaps::geo::GeoInfo;
use ipaps::scan::PortState;
use ipaps::state::{App, Delivery, ScanProgress, Status, WorkerMessage};

const A: IpAddr = IpAddr::V4(0x08080808);
const B: IpAddr = IpAddr::V4(0x01010101);
const IDLE: ScanRate = ScanRate { ports_per_second: 0, eta: None, elapsed: None };

fn at(now: u64, message: WorkerMessage) -> Delivery {
    Delivery { message, now }
}

fn resolving() -> App {
    let mut app = App::new();
    app.domain = "  example.com ".to_string();
    assert!(app.start_resolve().is_some());
    app
}

fn text(app: &App) -> String {
    app.status.text(IDLE)
}

#[test]
fn the_program_starts_idle() {
    let app = App::new();
    assert_eq!(app.domain, "");
    assert_eq!(app.timeout_ms, 750);
    assert_eq!(app.workers, 256);
    assert_eq!(text(&app), "Enter a domain and press Resolve / Inspect.");
    assert!(!app.running && !app.listening && !app.cancellable);
    assert_eq!(app.selected_ip, None);
    assert_eq!(app.results.len(), 0);
}

#[test]
fn a_lookup_takes_the_trimmed_domain() {
    let mut app = App::new();
    app.domain = "\t example.com \n".to_string();
    app.workers = 0;
    let job = app.start_resolve().unwrap();
    assert_eq!(job.domain, "example.com");
    assert_eq!(job.timeout_ms, 750);
    assert_eq!(job.workers, 1);
    assert!(app.running && app.listening && app.cancellable);
}

#[test]
fn a_blank_domain_is_refused() {
    let mut app = App::new();
    app.domain = "   ".to_string();
    assert!(app.start_resolve().is_none());
    assert_eq!(text(&app), "Enter a domain first.");
    assert!(!app.running);
}

#[test]
fn a_running_worker_is_left_alone() {
    let mut app = resolving();
    app.process_messages(vec![at(1, WorkerMessage::Resolved(vec![A]))]);
    assert!(app.start_resolve().is_none());
    assert!(app.start_port_scan(A).is_none());
    app.clear();
    assert_eq!(app.results.len(), 1);
    assert!(app.running);
}

#[test]
fn stopping_makes_way() {
    let mut app = resolving();
    assert!(app.stop());
    assert!(!app.running && !app.cancellable && app.listening);
    assert_eq!(text(&app), "Stopped.");
    assert!(!app.stop());
    assert!(app.start_resolve().is_some());
}

#[test]
fn clearing_forgets_the_results() {
    let mut app = resolving();
    app.process_messages(vec![
        at(1, WorkerMessage::Resolved(vec![A, B])),
        at(2, WorkerMessage::Finished),
    ]);
    assert_eq!(app.results.len(), 2);
    app.clear();
    assert_eq!(app.results.len(), 0);
    assert_eq!(text(&app), "Cleared.");
}

#[test]
fn reports_fill_in_the_results() {
    let mut app = resolving();
    app.process_messages(vec![
        at(1, WorkerMessage::Status("Resolving example.com...".to_string())),
        at(2, WorkerMessage::Resolved(vec![B, A])),
        at(3, WorkerMessage::PingResult { ip: A, ok: true, rtt_ms: Some(9) }),
        at(4, WorkerMessage::ReverseDns { ip: A, hostname: Some("dns.google".to_string()) }),
        at(5, WorkerMessage::GeoResult { ip: B, info: Some(GeoInfo::default()) }),
        at(6, WorkerMessage::PingResult { ip: IpAddr::V6(9), ok: true, rtt_ms: None }),
    ]);
    assert_eq!(text(&app), "Resolving example.com...");
    assert!(app.running);
    assert_eq!(app.results.len(), 2);
    let a = app.results.get(&A).unwrap();
    assert!(a.ping_ok);
    assert_eq!(a.rtt_ms, Some(9));
    assert_eq!(a.reverse_dns.as_deref(), Some("dns.google"));
    assert!(a.geo.is_none());
    let b = app.results.get(&B).unwrap();
    assert!(!b.ping_ok);
    assert!(b.geo.is_some());
}

#[test]
fn the_last_report_counts() {
    let mut app = resolving();
    app.process_messages(vec![
        at(1, WorkerMessage::Resolved(vec![A])),
        at(2, WorkerMessage::PingResult { ip: A, ok: true, rtt_ms: Some(9) }),
        at(3, WorkerMessage::PingResult { ip: A, ok: false, rtt_ms: None }),
    ]);
    let a = app.results.get(&A).unwrap();
    assert!(!a.ping_ok);
    assert_eq!(a.rtt_ms, None);
}

#[test]
fn an_error_dismisses_the_worker() {
    let mut app = resolving();
    app.process_messages(vec![
        at(1, WorkerMessage::Error("DNS resolution failed: x".to_string())),
        at(2, WorkerMessage::Resolved(vec![A])),
    ]);
    assert_eq!(text(&app), "Error: DNS resolution failed: x");
    assert!(!app.running && !app.listening && !app.cancellable);
    assert_eq!(app.results.len(), 1);
    app.process_messages(vec![at(3, WorkerMessage::Resolved(vec![B]))]);
    assert_eq!(app.results.len(), 1);
}

#[test]
fn a_scan_request_resets_the_record() {
    let mut app = resolving();
    app.process_messages(vec![
        at(1, WorkerMessage::Resolved(vec![A])),
        at(2, WorkerMessage::Finished),
    ]);
    let job = app.start_port_scan(A).unwrap();
    assert_eq!(job.ip, A);
    assert_eq!(job.timeout_ms, 750);
    assert_eq!(job.limit, 256);
    assert_eq!(app.selected_ip, Some(A));
    assert_eq!(text(&app), "Starting fast TCP scan for 8.8.8.8...");
    let scan = app.results.get(&A).unwrap().port_scan.as_ref().unwrap();
    assert_eq!(scan.completed, 0);
    assert_eq!(scan.started_at, None);
}

#[test]
fn a_scan_of_an_unknown_address_runs_all_the_same() {
    let mut app = App::new();
    assert!(app.start_port_scan(A).is_some());
    app.process_messages(vec![
        at(1, WorkerMessage::PortScanStarted { ip: A, total: 65_535 }),
        at(2, WorkerMessage::PortChecked { ip: A, port: 80, state: PortState::Open }),
    ]);
    assert_eq!(text(&app), "Scanning 8.8.8.8: 0 / 65535");
    assert_eq!(app.results.len(), 0);
}

#[test]
fn a_whole_scan_is_recorded() {
    let mut app = resolving();
    app.process_messages(vec![
        at(1, WorkerMessage::Resolved(vec![A])),
        at(2, WorkerMessage::Finished),
    ]);
    app.start_port_scan(A);
    let mut inbox = vec![at(10, WorkerMessage::PortScanStarted { ip: A, total: 65_535 })];
    for k in 0..65_535u32 {
        let port = (65_535 - k) as u16;
        let state = if port % 1000 == 0 {
            PortState::Open
        } else if port % 2 == 0 {
            PortState::Closed
        } else {
            PortState::Filtered
        };
        inbox.push(at(11 + k as u64, WorkerMessage::PortChecked { ip: A, port, state }));
    }
    inbox.push(at(70_000, WorkerMessage::PortScanFinished { ip: A }));
    inbox.push(at(70_001, WorkerMessage::Finished));
    app.process_messages(inbox);
    let scan = app.results.get(&A).unwrap().port_scan.as_ref().unwrap();
    assert_eq!(scan.completed, 65_535);
    assert_eq!(scan.open, 65);
    assert_eq!(scan.open + scan.closed + scan.filtered, 65_535);
    assert!(scan.finished);
    let expected: Vec<u16> = (1..=65).map(|i| i * 1000).collect();
    assert_eq!(scan.open_ports, expected);
    assert_eq!(text(&app), "Port scan finished for 8.8.8.8.");
    assert!(!app.running && !app.listening);
}

#[test]
fn progress_shows_the_speed_once_time_has_passed() {
    let mut app = resolving();
    app.process_messages(vec![
        at(5, WorkerMessage::Resolved(vec![A])),
        at(5, WorkerMessage::PortScanStarted { ip: A, total: 65_535 }),
        at(5, WorkerMessage::PortChecked { ip: A, port: 1, state: PortState::Closed }),
    ]);
    assert_eq!(text(&app), "Scanning 8.8.8.8: 1 / 65535");
    app.process_messages(vec![at(
        1_000_000_005,
        WorkerMessage::PortChecked { ip: A, port: 2, state: PortState::Closed },
    )]);
    let progress = match app.status {
        Status::Scanning(progress) => progress,
        Status::Text(ref other) => panic!("{}", other),
    };
    assert_eq!(
        progress,
        ScanProgress { ip: A, completed: 2, total: 65_535, elapsed: 1_000_000_000 }
    );
    assert_eq!(progress.remaining(), 65_533);
    let rate = ScanRate { ports_per_second: 2, eta: Some(32_767), elapsed: Some(1) };
    assert_eq!(
        app.status.text(rate),
        "Scanning 8.8.8.8: 2 / 65535  •  2 ports/s  •  ETA 9h 06m"
    );
}

#[test]
fn full_counters_are_noticed() {
    let mut app = resolving();
    app.process_messages(vec![
        at(1, WorkerMessage::Resolved(vec![A])),
        at(2, WorkerMessage::PortScanStarted { ip: A, total: usize::MAX }),
        at(3, WorkerMessage::PortScanFinished { ip: A }),
    ]);
    let full = WorkerMessage::PortChecked { ip: A, port: 1, state: PortState::Open };
    assert!(!app.fits(&full));
    assert!(app.fits(&WorkerMessage::PortChecked { ip: B, port: 1, state: PortState::Open }));
    assert!(app.fits(&WorkerMessage::Finished));
}

#[test]
fn reports_can_be_taken_up_one_by_one() {
    let mut app = resolving();
    let mut finished = app.process_message(WorkerMessage::Resolved(vec![A]), 1);
    assert!(!finished);
    finished |= app.process_message(WorkerMessage::Finished, 2);
    assert!(finished);
    app.end_batch(false);
    assert!(app.running);
    app.end_batch(finished);
    assert!(!app.running && !app.listening && !app.cancellable);
}

#[test]
fn a_stopped_worker_is_still_heard() {
    let mut app = resolving();
    app.stop();
    app.process_messages(vec![at(1, WorkerMessage::Status("late".to_string()))]);
    assert_eq!(text(&app), "late");
    assert!(!app.running);
}

#[test]
fn the_division_of_reports_is_immaterial() {
    let inbox = || {
        vec![
            at(1, WorkerMessage::Resolved(vec![A, B])),
            at(2, WorkerMessage::PingResult { ip: A, ok: true, rtt_ms: Some(4) }),
            at(3, WorkerMessage::Status("half".to_string())),
            at(4, WorkerMessage::PingResult { ip: B, ok: true, rtt_ms: Some(5) }),
            at(5, WorkerMessage::Finished),
        ]
    };
    let mut whole = resolving();
    whole.process_messages(inbox());
    let mut parts = resolving();
    for delivery in inbox() {
        parts.process_messages(vec![delivery]);
    }
    assert_eq!(text(&whole), text(&parts));
    assert_eq!(whole.results.len(), parts.results.len());
    for ip in [A, B] {
        assert_eq!(
            whole.results.get(&ip).unwrap().rtt_ms,
            parts.results.get(&ip).unwrap().rtt_ms
        );
    }
    assert!(!whole.running && !parts.running);
}

#[test]
fn reports_keep_the_settings() {
    let mut app = resolving();
    app.timeout_ms = 900;
    app.workers = 3;
    app.process_messages(vec![
        at(1, WorkerMessage::Resolved(vec![A])),
        at(2, WorkerMessage::Error("x".to_string())),
    ]);
    assert_eq!(app.domain, "  example.com ");
    assert_eq!(app.timeout_ms, 900);
    assert_eq!(app.workers, 3);
    assert_eq!(app.selected_ip, None);
}

#[test]
fn a_new_lookup_starts_afresh() {
    let mut app = resolving();
    app.process_messages(vec![
        at(1, WorkerMessage::Resolved(vec![A])),
        at(2, WorkerMessage::PingResult { ip: A, ok: true, rtt_ms: Some(4) }),
        at(3, WorkerMessage::Resolved(vec![A])),
    ]);
    let a = app.results.get(&A).unwrap();
    assert!(!a.ping_ok);
    assert_eq!(a.rtt_ms, None);
}

#[test]
fn a_scan_follows_the_settings() {
    for (workers, limit) in [(0, 1), (1, 1), (2, 2), (512, 512), (1024, 1024), (5000, 1024)] {
        let mut app = App::new();
        app.workers = workers;
        app.timeout_ms = 300;
        assert_eq!(app.scan_limit(), limit);
        let job = app.start_port_scan(A).unwrap();
        assert_eq!(job.limit, limit);
        assert_eq!(job.timeout_ms, 300);
    }
}

#[test]
fn reports_are_taken_up_while_there_is_room() {
    let mut app = resolving();
    let all = app.take_up(vec![
        at(1, WorkerMessage::Resolved(vec![A])),
        at(2, WorkerMessage::PortScanStarted { ip: A, total: usize::MAX }),
        at(3, WorkerMessage::PortScanFinished { ip: A }),
        at(4, WorkerMessage::PortChecked { ip: A, port: 1, state: PortState::Open }),
        at(5, WorkerMessage::Finished),
    ]);
    assert!(!all);
    assert!(app.running && app.listening);
    assert_eq!(text(&app), "Port scan finished for 8.8.8.8.");
    assert!(app.take_up(vec![at(6, WorkerMessage::Finished)]));
    assert!(!app.running);
    assert!(app.take_up(vec![at(7, WorkerMessage::Status("late".to_string()))]));
    assert_eq!(text(&app), "Port scan finished for 8.8.8.8.");
}
