use ipaps::addr::IpAddr;
use ipaps::reverse::{find_host_name, reverse_dns};

const DNS: IpAddr = IpAddr::V4(0x08080808);

#[test]
fn the_name_line_gives_the_host() {
    let out = b"Server:  router.local\r\nAddress:  192.168.1.1\r\n\r\nName:    dns.google\r\nAddress:  8.8.8.8\r\n";
    assert_eq!(reverse_dns(out, b"", DNS).as_deref(), Some("dns.google"));
}

#[test]
fn dots_at_the_end_are_dropped() {
    assert_eq!(find_host_name("Name: a.example..", "1.2.3.4").as_deref(), Some("a.example"));
    assert_eq!(find_host_name("Name: .", "1.2.3.4").as_deref(), Some(""));
}

#[test]
fn the_address_itself_is_no_name() {
    assert_eq!(find_host_name("Name: 8.8.8.8\nName: dns.google\n", "8.8.8.8").as_deref(), Some("dns.google"));
    assert_eq!(find_host_name("Name: FE80::A", "fe80::a"), None);
    assert_eq!(find_host_name("Name: 8.8.8.8", "8.8.8.8"), None);
}

#[test]
fn blank_names_are_passed_over() {
    assert_eq!(find_host_name("Name:   \t\n  Name:\u{a0}host \n", "x").as_deref(), Some("host"));
}

#[test]
fn the_second_form_is_a_fallback() {
    assert_eq!(find_host_name("name = b.example.\nName: a.example", "x").as_deref(), Some("a.example"));
    assert_eq!(find_host_name("\n name = b.example.\n", "x").as_deref(), Some("b.example"));
    assert_eq!(find_host_name("name = 1.2.3.4", "1.2.3.4").as_deref(), Some("1.2.3.4"));
    assert_eq!(find_host_name("8.8.8.8.in-addr.arpa\tname = dns.google.", "8.8.8.8"), None);
}

#[test]
fn both_streams_are_searched() {
    assert_eq!(reverse_dns(b"nothing here", b"Name: err.example", DNS).as_deref(), Some("err.example"));
    assert_eq!(reverse_dns(b"", b"", DNS), None);
    assert_eq!(reverse_dns(b"Na", b"me: split", DNS), None);
}

#[test]
fn malformed_bytes_are_replaced() {
    assert_eq!(
        reverse_dns(b"Name: caf\xe9.example", b"", DNS).as_deref(),
        Some("caf\u{fffd}.example")
    );
    assert_eq!(
        reverse_dns("Name: caf\u{e9}.example".as_bytes(), b"", DNS).as_deref(),
        Some("caf\u{e9}.example")
    );
}

#[test]
fn line_endings_do_not_matter() {
    let unix = "x\nName: host.example.\ny\n";
    let dos = unix.replace('\n', "\r\n");
    assert_eq!(find_host_name(unix, "q"), find_host_name(&dos, "q"));
    assert_eq!(find_host_name(unix, "q").as_deref(), Some("host.example"));
}
