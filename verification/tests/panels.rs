use ipaps::addr::IpAddr;
use ipaps::display::{
    common_service, empty_dash, format_duration, format_number, port_label, result_card,
    scan_panel, state_text, summary, Labelled, ScanRate,
};
use ipaps::geo::GeoInfo;
use ipaps::results::{IpResult, ResultTable};
use ipaps::scan::{PortScanState, PortState};

fn pairs(items: &[Labelled]) -> Vec<(&str, &str)> {
    items.iter().map(|i| (i.title.as_str(), i.value.as_str())).collect()
}

#[test]
fn numbers_are_grouped() {
    assert_eq!(format_number(0), "0");
    assert_eq!(format_number(7), "7");
    assert_eq!(format_number(999), "999");
    assert_eq!(format_number(1000), "1,000");
    assert_eq!(format_number(65_535), "65,535");
    assert_eq!(format_number(123_456), "123,456");
    assert_eq!(format_number(1_234_567_890), "1,234,567,890");
}

#[test]
fn grouping_keeps_the_digits() {
    for n in [0usize, 5, 1234, 999_999, 1_000_000, usize::MAX] {
        assert_eq!(format_number(n).replace(',', ""), n.to_string());
    }
}

#[test]
fn durations_use_two_units() {
    assert_eq!(format_duration(None), "-");
    assert_eq!(format_duration(Some(0)), "0s");
    assert_eq!(format_duration(Some(59)), "59s");
    assert_eq!(format_duration(Some(60)), "1m 0s");
    assert_eq!(format_duration(Some(3599)), "59m 59s");
    assert_eq!(format_duration(Some(3600)), "1h 00m");
    assert_eq!(format_duration(Some(3600 + 9 * 60 + 59)), "1h 09m");
    assert_eq!(format_duration(Some(100 * 3600 + 45 * 60)), "100h 45m");
}

#[test]
fn blank_values_become_a_dash() {
    assert_eq!(empty_dash(""), "-");
    assert_eq!(empty_dash(" \t\u{3000}"), "-");
    assert_eq!(empty_dash(" x "), " x ");
}

#[test]
fn services_have_names() {
    assert_eq!(common_service(22), Some("SSH"));
    assert_eq!(common_service(443), Some("HTTPS"));
    assert_eq!(common_service(587), Some("SMTP submission"));
    assert_eq!(common_service(27017), Some("MongoDB"));
    assert_eq!(common_service(24), None);
    assert_eq!(common_service(0), None);
    assert_eq!(port_label(80), "80 • HTTP");
    assert_eq!(port_label(81), "81");
}

#[test]
fn a_card_of_an_unknown_address() {
    let card = result_card(&IpResult::unknown(IpAddr::V6(1)));
    assert_eq!(card.heading, "::1");
    assert_eq!(card.family, "IPv6");
    assert!(!card.online);
    assert_eq!(card.rtt, "-");
    assert_eq!(card.reverse_dns, "-");
    assert_eq!(card.location, "-");
    assert!(card.details.is_none());
}

#[test]
fn a_card_of_a_known_address() {
    let mut result = IpResult::unknown(IpAddr::V4(0x08080808));
    result.ping_ok = true;
    result.rtt_ms = Some(12);
    result.reverse_dns = Some("dns.google".to_string());
    result.geo = Some(GeoInfo {
        country: "US".to_string(),
        region: " ".to_string(),
        city: "Mountain View".to_string(),
        isp: String::new(),
        org: "Google LLC".to_string(),
        latitude: Some(37.5f64.to_bits()),
        longitude: None,
    });
    let card = result_card(&result);
    assert_eq!(card.heading, "8.8.8.8");
    assert_eq!(card.family, "IPv4");
    assert!(card.online);
    assert_eq!(card.rtt, "12 ms");
    assert_eq!(card.reverse_dns, "dns.google");
    assert_eq!(card.location, "Mountain View, -, US");
    let details = card.details.unwrap();
    assert_eq!(details.grid, "geo_8.8.8.8");
    assert_eq!(
        pairs(&details.rows),
        vec![
            ("Country", "US"),
            ("Region", "-"),
            ("City", "Mountain View"),
            ("ISP", "-"),
            ("Organization", "Google LLC"),
        ]
    );
    assert_eq!(details.coordinates, None);
    result.geo.as_mut().unwrap().longitude = Some(2.0f64.to_bits());
    let details = result_card(&result).details.unwrap();
    assert_eq!(details.coordinates, Some((37.5f64.to_bits(), 2.0f64.to_bits())));
}

#[test]
fn a_panel_of_a_running_scan() {
    let mut scan = PortScanState::started(65_535, 0);
    scan.record(443, PortState::Open);
    scan.record(1024, PortState::Open);
    scan.record(5, PortState::Filtered);
    let rate = ScanRate { ports_per_second: 1500, eta: Some(43), elapsed: Some(2) };
    let panel = scan_panel(IpAddr::V4(0x01020304), &scan, Some(rate));
    assert_eq!(panel.badge, "SCANNING");
    assert_eq!(panel.progress, "3/65,535 ports");
    assert_eq!(
        pairs(&panel.chips),
        vec![
            ("Scanned", "3"),
            ("Open", "2"),
            ("Closed", "0"),
            ("Filtered", "1"),
            ("Speed", "1500 ports/s"),
            ("ETA", "43s"),
        ]
    );
    assert_eq!(panel.open_title.as_deref(), Some("Open TCP ports (2)"));
    assert_eq!(panel.open_labels, vec!["443 • HTTPS".to_string(), "1024".to_string()]);
    assert_eq!(panel.note, None);
    assert_eq!(scan_panel(IpAddr::V4(0x01020304), &scan, None).chips.len(), 4);
}

#[test]
fn a_panel_of_a_scan_that_found_nothing() {
    let mut scan = PortScanState::started(65_535, 0);
    scan.finish();
    let rate = ScanRate { ports_per_second: 1000, eta: None, elapsed: Some(66) };
    let panel = scan_panel(IpAddr::V4(0x01020304), &scan, Some(rate));
    assert_eq!(panel.badge, "COMPLETE");
    assert_eq!(panel.progress, "65,535/65,535 ports");
    assert_eq!(pairs(&panel.chips)[5], ("Time", "1m 6s"));
    assert_eq!(panel.open_title, None);
    assert!(panel.open_labels.is_empty());
    assert_eq!(panel.note.as_deref(), Some("No open TCP ports found on 1.2.3.4."));
}

#[test]
fn results_are_summed_up() {
    let mut table = ResultTable::new();
    let mut a = IpResult::unknown(IpAddr::V4(1));
    a.ping_ok = true;
    let mut scan = PortScanState::default();
    scan.record(80, PortState::Open);
    scan.record(81, PortState::Open);
    a.port_scan = Some(scan);
    table.insert(a);
    let mut b = IpResult::unknown(IpAddr::V4(2));
    b.port_scan = Some(PortScanState::default());
    table.insert(b);
    table.insert(IpResult::unknown(IpAddr::V6(2)));
    let sum = summary(&table);
    assert_eq!((sum.resolved, sum.online, sum.scanned, sum.open_ports), (3, 1, 2, 2));
}

#[test]
fn results_are_listed_by_address() {
    let mut table = ResultTable::new();
    for ip in [IpAddr::V6(0), IpAddr::V4(7), IpAddr::V4(3), IpAddr::V4(7)] {
        table.insert(IpResult::unknown(ip));
    }
    assert_eq!(table.len(), 3);
    assert_eq!(table.at(0).ip, IpAddr::V4(3));
    assert_eq!(table.at(1).ip, IpAddr::V4(7));
    assert_eq!(table.at(2).ip, IpAddr::V6(0));
    assert!(table.get(&IpAddr::V4(4)).is_none());
    assert_eq!(table.remove(&IpAddr::V4(7)).unwrap().ip, IpAddr::V4(7));
    assert!(table.remove(&IpAddr::V4(7)).is_none());
    assert_eq!(table.len(), 2);
    table.clear();
    assert_eq!(table.len(), 0);
}

#[test]
fn the_state_has_a_word() {
    assert_eq!(state_text(true), "RUNNING");
    assert_eq!(state_text(false), "IDLE");
}
