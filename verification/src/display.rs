//! What is shown: numbers, durations, services, and the panels that are made of
//! them.

use vstd::prelude::*;
use vstd::slice::slice_subrange;

use crate::addr::IpAddr;
use crate::geo::{GeoInfo, GeoModel};
use crate::results::{in_order, lists, IpResult, ResultModel, ResultTable};
use crate::scan::{PortScanState, ScanModel};
use crate::text::{
    begins_with_number, digit_value, is_blank, is_white_space, push_decimal, spells, to_chars,
};

verus! {

/// Digits with a comma before each group of three, counted from the right.
pub open spec fn grouped(digits: Seq<char>) -> Seq<char>
    decreases digits.len(),
{
    if digits.len() <= 3 {
        digits
    } else {
        grouped(digits.take(digits.len() - 3)) + ","@ + digits.skip(digits.len() - 3)
    }
}

/// Decimal notation with thousands separators.
pub open spec fn number_text(value: int) -> Seq<char> {
    grouped(crate::text::decimal(value as nat))
}

fn push_slice(out: &mut String, s: &[char])
    ensures
        final(out)@ == old(out)@ + s@,
{
    let mut i: usize = 0;
    assert(out@ =~= old(out)@ + s@.take(0));
    while i < s.len()
        invariant
            i <= s@.len(),
            out@ == old(out)@ + s@.take(i as int),
        decreases s@.len() - i,
    {
        out.push(s[i]);
        assert(s@.take(i + 1) =~= s@.take(i as int).push(s@[i as int]));
        assert(out@ =~= old(out)@ + s@.take(i + 1));
        i = i + 1;
    }
    assert(s@.take(i as int) =~= s@);
}

fn push_grouped(out: &mut String, digits: &[char])
    ensures
        final(out)@ == old(out)@ + grouped(digits@),
    decreases digits@.len(),
{
    let n: usize = digits.len();
    if n <= 3 {
        push_slice(out, digits);
    } else {
        let front: &[char] = slice_subrange(digits, 0, n - 3);
        let back: &[char] = slice_subrange(digits, n - 3, n);
        assert(front@ =~= digits@.take(n - 3));
        assert(back@ =~= digits@.skip(n - 3));
        push_grouped(out, front);
        out.append(",");
        push_slice(out, back);
        assert(out@ =~= old(out)@ + grouped(digits@));
    }
}

/// Writes `value` with thousands separators.
pub fn format_number(value: usize) -> (r: String)
    ensures
        r@ == number_text(value as int),
{
    let mut plain: String = String::new();
    push_decimal(&mut plain, value as u128);
    assert(plain@ =~= crate::text::decimal(value as nat));
    let digits: Vec<char> = to_chars(plain.as_str());
    let mut out: String = String::new();
    push_grouped(&mut out, digits.as_slice());
    assert(out@ =~= number_text(value as int));
    out
}

/// At least two decimal digits.
pub open spec fn two_digits(n: nat) -> Seq<char> {
    if n < 10 {
        "0"@ + crate::text::decimal(n)
    } else {
        crate::text::decimal(n)
    }
}

/// A duration in whole seconds, in the two largest units that it needs; a dash
/// where there is none.
pub open spec fn duration_text(seconds: Option<u64>) -> Seq<char> {
    match seconds {
        None => "-"@,
        Some(s) => if s < 60 {
            crate::text::decimal(s as nat) + "s"@
        } else if s < 3600 {
            crate::text::decimal((s / 60) as nat) + "m "@ + crate::text::decimal((s % 60) as nat)
                + "s"@
        } else {
            crate::text::decimal((s / 3600) as nat) + "h "@ + two_digits((s % 3600 / 60) as nat)
                + "m"@
        },
    }
}

/// Writes a duration in whole seconds; `None` stands for one that is not known.
pub fn format_duration(seconds: Option<u64>) -> (r: String)
    ensures
        r@ == duration_text(seconds),
{
    let mut out: String = String::new();
    match seconds {
        None => {
            out.append("-");
        },
        Some(s) => {
            if s < 60 {
                push_decimal(&mut out, s as u128);
                out.append("s");
            } else if s < 3600 {
                push_decimal(&mut out, (s / 60) as u128);
                out.append("m ");
                push_decimal(&mut out, (s % 60) as u128);
                out.append("s");
            } else {
                push_decimal(&mut out, (s / 3600) as u128);
                out.append("h ");
                let minutes: u64 = s % 3600 / 60;
                if minutes < 10 {
                    out.append("0");
                }
                push_decimal(&mut out, minutes as u128);
                out.append("m");
            }
        },
    }
    assert(out@ =~= duration_text(seconds));
    out
}

/// `value`, or a dash where it is blank.
pub open spec fn dashed(value: Seq<char>) -> Seq<char> {
    if crate::text::trim(value).len() == 0 {
        "-"@
    } else {
        value
    }
}

/// `value`, or a dash where it holds nothing but white space.
pub fn empty_dash(value: &str) -> (r: &str)
    ensures
        r@ == dashed(value@),
{
    let chars: Vec<char> = to_chars(value);
    proof {
        crate::text::blank_iff_trim_empty(value@);
    }
    let mut i: usize = 0;
    while i < chars.len()
        invariant
            i <= chars@.len(),
            chars@ == value@,
            crate::text::trim(value@).len() == 0 <==> forall|k: int|
                0 <= k < value@.len() ==> crate::text::white_space(#[trigger] value@[k]),
            forall|k: int| 0 <= k < i ==> crate::text::white_space(#[trigger] value@[k]),
        decreases chars@.len() - i,
    {
        if !is_white_space(chars[i]) {
            assert(!crate::text::white_space(value@[i as int]));
            return value;
        }
        i = i + 1;
    }
    "-"
}

/// The service that usually answers on a port.
pub open spec fn service(port: u16) -> Option<Seq<char>> {
    match port {
        20 => Some("FTP-data"@),
        21 => Some("FTP"@),
        22 => Some("SSH"@),
        23 => Some("Telnet"@),
        25 => Some("SMTP"@),
        53 => Some("DNS"@),
        67 => Some("DHCP"@),
        68 => Some("DHCP"@),
        80 => Some("HTTP"@),
        110 => Some("POP3"@),
        111 => Some("RPC"@),
        123 => Some("NTP"@),
        135 => Some("MS RPC"@),
        137 => Some("NetBIOS"@),
        138 => Some("NetBIOS"@),
        139 => Some("NetBIOS"@),
        143 => Some("IMAP"@),
        161 => Some("SNMP"@),
        389 => Some("LDAP"@),
        443 => Some("HTTPS"@),
        445 => Some("SMB"@),
        465 => Some("SMTPS"@),
        587 => Some("SMTP submission"@),
        636 => Some("LDAPS"@),
        993 => Some("IMAPS"@),
        995 => Some("POP3S"@),
        1433 => Some("MSSQL"@),
        1521 => Some("Oracle"@),
        3306 => Some("MySQL"@),
        3389 => Some("RDP"@),
        5432 => Some("PostgreSQL"@),
        5900 => Some("VNC"@),
        6379 => Some("Redis"@),
        8080 => Some("HTTP-alt"@),
        8443 => Some("HTTPS-alt"@),
        27017 => Some("MongoDB"@),
        _ => None,
    }
}

/// The service that usually answers on a port.
pub fn common_service(port: u16) -> (r: Option<&'static str>)
    ensures
        match r {
            Some(name) => service(port) == Some(name@),
            None => service(port) is None,
        },
{
    match port {
        20 => Some("FTP-data"),
        21 => Some("FTP"),
        22 => Some("SSH"),
        23 => Some("Telnet"),
        25 => Some("SMTP"),
        53 => Some("DNS"),
        67 => Some("DHCP"),
        68 => Some("DHCP"),
        80 => Some("HTTP"),
        110 => Some("POP3"),
        111 => Some("RPC"),
        123 => Some("NTP"),
        135 => Some("MS RPC"),
        137 => Some("NetBIOS"),
        138 => Some("NetBIOS"),
        139 => Some("NetBIOS"),
        143 => Some("IMAP"),
        161 => Some("SNMP"),
        389 => Some("LDAP"),
        443 => Some("HTTPS"),
        445 => Some("SMB"),
        465 => Some("SMTPS"),
        587 => Some("SMTP submission"),
        636 => Some("LDAPS"),
        993 => Some("IMAPS"),
        995 => Some("POP3S"),
        1433 => Some("MSSQL"),
        1521 => Some("Oracle"),
        3306 => Some("MySQL"),
        3389 => Some("RDP"),
        5432 => Some("PostgreSQL"),
        5900 => Some("VNC"),
        6379 => Some("Redis"),
        8080 => Some("HTTP-alt"),
        8443 => Some("HTTPS-alt"),
        27017 => Some("MongoDB"),
        _ => None,
    }
}

/// `s` without its commas.
pub open spec fn without_commas(s: Seq<char>) -> Seq<char>
    decreases s.len(),
{
    if s.len() == 0 {
        s
    } else if s.last() == ',' {
        without_commas(s.drop_last())
    } else {
        without_commas(s.drop_last()).push(s.last())
    }
}

/// Without its separators a formatted number is the plain decimal numeral.
pub proof fn number_text_keeps_the_digits(value: nat)
    ensures
        without_commas(number_text(value as int)) == crate::text::decimal(value),
{
    lemma_decimal_has_no_comma(value);
    lemma_ungroup(crate::text::decimal(value));
}

proof fn lemma_decimal_has_no_comma(n: nat)
    ensures
        forall|i: int|
            0 <= i < crate::text::decimal(n).len() ==> #[trigger] crate::text::decimal(n)[i] != ',',
    decreases n,
{
    if n >= 10 {
        lemma_decimal_has_no_comma(n / 10);
        assert(crate::text::decimal(n) == crate::text::decimal(n / 10).push(
            crate::text::digit(n % 10),
        ));
    }
}

proof fn lemma_without_commas_splits(a: Seq<char>, b: Seq<char>)
    ensures
        without_commas(a + b) == without_commas(a) + without_commas(b),
    decreases b.len(),
{
    if b.len() == 0 {
        assert(a + b =~= a);
        assert(without_commas(a) + without_commas(b) =~= without_commas(a));
    } else {
        assert((a + b).drop_last() =~= a + b.drop_last());
        lemma_without_commas_splits(a, b.drop_last());
        assert(without_commas(a + b) =~= without_commas(a) + without_commas(b));
    }
}

proof fn lemma_without_commas_unchanged(s: Seq<char>)
    requires
        forall|i: int| 0 <= i < s.len() ==> #[trigger] s[i] != ',',
    ensures
        without_commas(s) == s,
    decreases s.len(),
{
    if s.len() > 0 {
        lemma_without_commas_unchanged(s.drop_last());
        assert(s.drop_last().push(s.last()) =~= s);
    }
}

proof fn lemma_ungroup(digits: Seq<char>)
    requires
        forall|i: int| 0 <= i < digits.len() ==> #[trigger] digits[i] != ',',
    ensures
        without_commas(grouped(digits)) == digits,
    decreases digits.len(),
{
    if digits.len() <= 3 {
        lemma_without_commas_unchanged(digits);
    } else {
        let front = digits.take(digits.len() - 3);
        let back = digits.skip(digits.len() - 3);
        lemma_ungroup(front);
        lemma_without_commas_unchanged(back);
        lemma_without_commas_splits(grouped(front) + ","@, back);
        lemma_without_commas_splits(grouped(front), ","@);
        reveal_strlit(",");
        assert(","@.drop_last() =~= Seq::<char>::empty());
        assert(","@.last() == ',');
        assert(without_commas(","@) == without_commas(","@.drop_last()));
        assert(without_commas(","@) =~= Seq::<char>::empty());
        assert(front + Seq::<char>::empty() + back =~= digits);
    }
}

/// The speed of a scan in whole ports per second, and in whole seconds the time
/// that it still takes and has taken, where these are known.
#[derive(Clone, Copy, Debug, PartialEq, Eq)]
pub struct ScanRate {
    pub ports_per_second: u64,
    pub eta: Option<u64>,
    pub elapsed: Option<u64>,
}

/// A value under its title.
#[derive(Clone, Debug)]
pub struct Labelled {
    pub title: String,
    pub value: String,
}

impl View for Labelled {
    type V = (Seq<char>, Seq<char>);

    open spec fn view(&self) -> (Seq<char>, Seq<char>) {
        (self.title@, self.value@)
    }
}

/// What a series of labelled values holds.
pub open spec fn labelled(items: Seq<Labelled>) -> Seq<(Seq<char>, Seq<char>)> {
    items.map_values(|item: Labelled| item@)
}

fn label(title: &str, value: String) -> (r: Labelled)
    ensures
        r@ == (title@, value@),
{
    Labelled { title: title.to_owned(), value }
}

/// The details of a location; `coordinates` are latitude and longitude where
/// both are known.
#[derive(Clone, Debug)]
pub struct GeoDetails {
    pub grid: String,
    pub rows: Vec<Labelled>,
    pub coordinates: Option<(u64, u64)>,
}

/// What a [`GeoDetails`] holds.
pub struct DetailsModel {
    pub grid: Seq<char>,
    pub rows: Seq<(Seq<char>, Seq<char>)>,
    pub coordinates: Option<(u64, u64)>,
}

impl View for GeoDetails {
    type V = DetailsModel;

    open spec fn view(&self) -> DetailsModel {
        DetailsModel {
            grid: self.grid@,
            rows: labelled(self.rows@),
            coordinates: self.coordinates,
        }
    }
}

/// What is shown of a result.
#[derive(Clone, Debug)]
pub struct ResultCard {
    pub heading: String,
    pub family: String,
    pub online: bool,
    pub rtt: String,
    pub reverse_dns: String,
    pub location: String,
    pub details: Option<GeoDetails>,
}

/// What a [`ResultCard`] holds.
pub struct CardModel {
    pub heading: Seq<char>,
    pub family: Seq<char>,
    pub online: bool,
    pub rtt: Seq<char>,
    pub reverse_dns: Seq<char>,
    pub location: Seq<char>,
    pub details: Option<DetailsModel>,
}

impl View for ResultCard {
    type V = CardModel;

    open spec fn view(&self) -> CardModel {
        CardModel {
            heading: self.heading@,
            family: self.family@,
            online: self.online,
            rtt: self.rtt@,
            reverse_dns: self.reverse_dns@,
            location: self.location@,
            details: crate::results::opt_view(self.details),
        }
    }
}

/// A location in one line: city, region and country, with a dash for each that
/// is blank.
pub open spec fn location_text(geo: GeoModel) -> Seq<char> {
    dashed(geo.city) + ", "@ + dashed(geo.region) + ", "@ + dashed(geo.country)
}

/// The details of a location.
pub open spec fn details_of(ip: IpAddr, geo: GeoModel) -> DetailsModel {
    DetailsModel {
        grid: "geo_"@ + crate::addr::ip_text(ip),
        rows: seq![
            ("Country"@, dashed(geo.country)),
            ("Region"@, dashed(geo.region)),
            ("City"@, dashed(geo.city)),
            ("ISP"@, dashed(geo.isp)),
            ("Organization"@, dashed(geo.org)),
        ],
        coordinates: match (geo.latitude, geo.longitude) {
            (Some(lat), Some(lon)) => Some((lat, lon)),
            _ => None,
        },
    }
}

/// What is shown of a result.
pub open spec fn card_of(result: ResultModel) -> CardModel {
    CardModel {
        heading: crate::addr::ip_text(result.ip),
        family: if result.ip is V4 {
            "IPv4"@
        } else {
            "IPv6"@
        },
        online: result.ping_ok,
        rtt: match result.rtt_ms {
            Some(ms) => crate::text::decimal(ms as nat) + " ms"@,
            None => "-"@,
        },
        reverse_dns: match result.reverse_dns {
            Some(name) => name,
            None => "-"@,
        },
        location: match result.geo {
            Some(geo) => location_text(geo),
            None => "-"@,
        },
        details: match result.geo {
            Some(geo) => Some(details_of(result.ip, geo)),
            None => None,
        },
    }
}

fn show_location(geo: &GeoInfo) -> (r: String)
    ensures
        r@ == location_text(geo@),
{
    let mut out: String = empty_dash(geo.city.as_str()).to_owned();
    out.append(", ");
    out.append(empty_dash(geo.region.as_str()));
    out.append(", ");
    out.append(empty_dash(geo.country.as_str()));
    out
}

fn show_details(ip: IpAddr, geo: &GeoInfo) -> (r: GeoDetails)
    ensures
        r@ == details_of(ip, geo@),
{
    let mut grid: String = "geo_".to_owned();
    ip.push_text(&mut grid);
    let mut rows: Vec<Labelled> = Vec::new();
    rows.push(label("Country", empty_dash(geo.country.as_str()).to_owned()));
    rows.push(label("Region", empty_dash(geo.region.as_str()).to_owned()));
    rows.push(label("City", empty_dash(geo.city.as_str()).to_owned()));
    rows.push(label("ISP", empty_dash(geo.isp.as_str()).to_owned()));
    rows.push(label("Organization", empty_dash(geo.org.as_str()).to_owned()));
    let coordinates: Option<(u64, u64)> = match (geo.latitude, geo.longitude) {
        (Some(lat), Some(lon)) => Some((lat, lon)),
        _ => None,
    };
    assert(labelled(rows@) =~= details_of(ip, geo@).rows);
    GeoDetails { grid, rows, coordinates }
}

/// What is to be shown of a result.
pub fn result_card(result: &IpResult) -> (r: ResultCard)
    ensures
        r@ == card_of(result@),
{
    let family: String = if result.ip.is_ipv4() {
        "IPv4".to_owned()
    } else {
        "IPv6".to_owned()
    };
    let rtt: String = match result.rtt_ms {
        Some(ms) => {
            let mut text: String = String::new();
            push_decimal(&mut text, ms);
            text.append(" ms");
            assert(text@ =~= crate::text::decimal(ms as nat) + " ms"@);
            text
        },
        None => "-".to_owned(),
    };
    let reverse_dns: String = match &result.reverse_dns {
        Some(name) => name.clone(),
        None => "-".to_owned(),
    };
    let location: String = match &result.geo {
        Some(geo) => show_location(geo),
        None => "-".to_owned(),
    };
    let details: Option<GeoDetails> = match &result.geo {
        Some(geo) => Some(show_details(result.ip, geo)),
        None => None,
    };
    ResultCard {
        heading: result.ip.to_text(),
        family,
        online: result.ping_ok,
        rtt,
        reverse_dns,
        location,
        details,
    }
}

/// The name of an open port: its number, and the service that usually answers
/// there.
pub open spec fn port_text(port: u16) -> Seq<char> {
    match service(port) {
        Some(name) => crate::text::decimal(port as nat) + " • "@ + name,
        None => crate::text::decimal(port as nat),
    }
}

/// The name of an open port.
pub fn port_label(port: u16) -> (r: String)
    ensures
        r@ == port_text(port),
{
    let mut out: String = String::new();
    push_decimal(&mut out, port as u128);
    if let Some(name) = common_service(port) {
        out.append(" • ");
        out.append(name);
    }
    assert(out@ =~= port_text(port));
    out
}

/// What is shown of a scan.
#[derive(Clone, Debug)]
pub struct ScanPanel {
    pub badge: String,
    pub progress: String,
    pub chips: Vec<Labelled>,
    pub open_title: Option<String>,
    pub open_labels: Vec<String>,
    pub note: Option<String>,
}

/// What a [`ScanPanel`] holds.
pub struct PanelModel {
    pub badge: Seq<char>,
    pub progress: Seq<char>,
    pub chips: Seq<(Seq<char>, Seq<char>)>,
    pub open_title: Option<Seq<char>>,
    pub open_labels: Seq<Seq<char>>,
    pub note: Option<Seq<char>>,
}

impl View for ScanPanel {
    type V = PanelModel;

    open spec fn view(&self) -> PanelModel {
        PanelModel {
            badge: self.badge@,
            progress: self.progress@,
            chips: labelled(self.chips@),
            open_title: crate::results::opt_view(self.open_title),
            open_labels: crate::text::texts(self.open_labels@),
            note: crate::results::opt_view(self.note),
        }
    }
}

/// The figures of a scan. The speed, and the time that is left or was taken, are
/// among them where time has passed.
pub open spec fn scan_figures(scan: ScanModel, rate: Option<ScanRate>) -> Seq<
    (Seq<char>, Seq<char>),
> {
    let counts = seq![
        ("Scanned"@, number_text(scan.completed)),
        ("Open"@, number_text(scan.open)),
        ("Closed"@, number_text(scan.closed)),
        ("Filtered"@, number_text(scan.filtered)),
    ];
    match rate {
        Some(r) => counts.push(
            ("Speed"@, crate::text::decimal(r.ports_per_second as nat) + " ports/s"@),
        ).push(
            if scan.finished {
                ("Time"@, duration_text(r.elapsed))
            } else {
                ("ETA"@, duration_text(r.eta))
            },
        ),
        None => counts,
    }
}

/// What is shown of the scan of `ip`.
pub open spec fn panel_of(ip: IpAddr, scan: ScanModel, rate: Option<ScanRate>) -> PanelModel {
    PanelModel {
        badge: if scan.finished {
            "COMPLETE"@
        } else {
            "SCANNING"@
        },
        progress: number_text(scan.completed) + "/"@ + number_text(scan.total) + " ports"@,
        chips: scan_figures(scan, rate),
        open_title: if scan.open_ports.len() > 0 {
            Some("Open TCP ports ("@ + crate::text::decimal(scan.open_ports.len()) + ")"@)
        } else {
            None
        },
        open_labels: scan.open_ports.map_values(|port: u16| port_text(port)),
        note: if scan.finished && scan.open_ports.len() == 0 {
            Some("No open TCP ports found on "@ + crate::addr::ip_text(ip) + "."@)
        } else {
            None
        },
    }
}

fn show_figures(scan: &PortScanState, rate: Option<ScanRate>) -> (r: Vec<Labelled>)
    ensures
        labelled(r@) == scan_figures(scan@, rate),
{
    let mut chips: Vec<Labelled> = Vec::new();
    chips.push(label("Scanned", format_number(scan.completed)));
    chips.push(label("Open", format_number(scan.open)));
    chips.push(label("Closed", format_number(scan.closed)));
    chips.push(label("Filtered", format_number(scan.filtered)));
    if let Some(known) = rate {
        let mut speed: String = String::new();
        push_decimal(&mut speed, known.ports_per_second as u128);
        speed.append(" ports/s");
        assert(speed@ =~= crate::text::decimal(known.ports_per_second as nat) + " ports/s"@);
        chips.push(label("Speed", speed));
        if scan.finished {
            chips.push(label("Time", format_duration(known.elapsed)));
        } else {
            chips.push(label("ETA", format_duration(known.eta)));
        }
    }
    assert(labelled(chips@) =~= scan_figures(scan@, rate));
    chips
}

fn show_open_ports(ports: &Vec<u16>) -> (r: Vec<String>)
    ensures
        crate::text::texts(r@) == ports@.map_values(|port: u16| port_text(port)),
{
    let mut out: Vec<String> = Vec::new();
    let mut i: usize = 0;
    while i < ports.len()
        invariant
            i <= ports@.len(),
            out@.len() == i,
            forall|k: int| 0 <= k < i ==> (#[trigger] out@[k])@ == port_text(ports@[k]),
        decreases ports@.len() - i,
    {
        out.push(port_label(ports[i]));
        i = i + 1;
    }
    assert(crate::text::texts(out@) =~= ports@.map_values(|port: u16| port_text(port)));
    out
}

/// What is to be shown of the scan of `ip`. `rate` is its speed, where time has
/// passed since its start.
pub fn scan_panel(ip: IpAddr, scan: &PortScanState, rate: Option<ScanRate>) -> (r: ScanPanel)
    ensures
        r@ == panel_of(ip, scan@, rate),
{
    let badge: String = if scan.finished {
        "COMPLETE".to_owned()
    } else {
        "SCANNING".to_owned()
    };
    let mut progress: String = format_number(scan.completed);
    progress.append("/");
    progress.append(format_number(scan.total).as_str());
    progress.append(" ports");
    let open_title: Option<String> = if scan.open_ports.len() > 0 {
        let mut title: String = "Open TCP ports (".to_owned();
        push_decimal(&mut title, scan.open_ports.len() as u128);
        title.append(")");
        Some(title)
    } else {
        None
    };
    let note: Option<String> = if scan.finished && scan.open_ports.len() == 0 {
        let mut text: String = "No open TCP ports found on ".to_owned();
        ip.push_text(&mut text);
        text.append(".");
        Some(text)
    } else {
        None
    };
    ScanPanel {
        badge,
        progress,
        chips: show_figures(scan, rate),
        open_title,
        open_labels: show_open_ports(&scan.open_ports),
        note,
    }
}

/// The figures over all results.
#[derive(Clone, Copy, Debug, PartialEq, Eq, Structural)]
pub struct Summary {
    pub resolved: usize,
    pub online: usize,
    pub scanned: usize,
    pub open_ports: u128,
}

/// The number of results of which `holds` is true.
pub open spec fn count_where(listing: Seq<ResultModel>, holds: spec_fn(ResultModel) -> bool) -> int
    decreases listing.len(),
{
    if listing.len() == 0 {
        0
    } else {
        count_where(listing.drop_last(), holds) + if holds(listing.last()) {
            1int
        } else {
            0
        }
    }
}

/// The number of open ports that the scans of the results have counted.
pub open spec fn open_total(listing: Seq<ResultModel>) -> int
    decreases listing.len(),
{
    if listing.len() == 0 {
        0
    } else {
        open_total(listing.drop_last()) + match listing.last().port_scan {
            Some(scan) => scan.open,
            None => 0,
        }
    }
}

/// Counts the results, those that replied, those that were scanned, and the open
/// ports that were found.
pub fn summary(results: &ResultTable) -> (r: Summary)
    ensures
        ({
            let listing = in_order(results@);
            &&& lists(listing, results@)
            &&& r.resolved == listing.len()
            &&& r.online == count_where(listing, |result: ResultModel| result.ping_ok)
            &&& r.scanned == count_where(listing, |result: ResultModel| result.port_scan is Some)
            &&& r.open_ports == open_total(listing)
        }),
{
    let ghost listing = in_order(results@);
    let ghost replied = |result: ResultModel| result.ping_ok;
    let ghost was_scanned = |result: ResultModel| result.port_scan is Some;
    let resolved: usize = results.len();
    let mut online: usize = 0;
    let mut scanned: usize = 0;
    let mut open_ports: u128 = 0;
    let mut i: usize = 0;
    while i < resolved
        invariant
            i <= resolved == listing.len(),
            listing == in_order(results@),
            online == count_where(listing.take(i as int), replied),
            scanned == count_where(listing.take(i as int), was_scanned),
            open_ports == open_total(listing.take(i as int)),
            online <= i,
            scanned <= i,
            open_ports <= i * usize::MAX,
            replied == (|result: ResultModel| result.ping_ok),
            was_scanned == (|result: ResultModel| result.port_scan is Some),
        decreases resolved - i,
    {
        let result: &IpResult = results.at(i);
        assert(listing.take(i + 1).drop_last() =~= listing.take(i as int));
        assert(listing.take(i + 1).last() == result@);
        assert(i * usize::MAX + usize::MAX == (i + 1) * usize::MAX) by (nonlinear_arith);
        assert((i + 1) * usize::MAX <= u128::MAX) by (nonlinear_arith)
            requires
                i < usize::MAX,
        ;
        if result.ping_ok {
            online = online + 1;
        }
        if let Some(scan) = &result.port_scan {
            scanned = scanned + 1;
            open_ports = open_ports + scan.open as u128;
        }
        i = i + 1;
    }
    assert(listing.take(i as int) =~= listing);
    Summary { resolved, online, scanned, open_ports }
}

/// The word for whether a worker runs.
pub fn state_text(running: bool) -> (r: &'static str)
    ensures
        r@ == if running {
            "RUNNING"@
        } else {
            "IDLE"@
        },
{
    if running {
        "RUNNING"
    } else {
        "IDLE"
    }
}

/// `text` is the decimal numeral of `n`, with a comma before each group of three
/// digits, counted from the right, and nowhere else.
pub open spec fn spells_in_groups(text: Seq<char>, n: int) -> bool {
    &&& spells(without_commas(text), n)
    &&& text.len() > 0
    &&& text[0] != ','
    &&& forall|i: int|
        0 <= i < text.len() ==> (#[trigger] text[i] == ',' <==> (text.len() - 1 - i) % 4 == 3)
}

/// A formatted number is its numeral with the digits in groups of three.
pub proof fn numbers_are_grouped_by_threes(value: usize, r: String)
    requires
        call_ensures(format_number, (value,), r),
    ensures
        spells_in_groups(r@, value as int),
{
    assert(r@ == number_text(value as int));
    lemma_number_text_spells(value as int);
}

proof fn lemma_number_text_spells(value: int)
    requires
        0 <= value,
    ensures
        spells_in_groups(number_text(value), value),
{
    number_text_keeps_the_digits(value as nat);
    crate::text::decimal_spells(value as nat);
    lemma_decimal_has_no_comma(value as nat);
    lemma_commas(crate::text::decimal(value as nat));
}

proof fn lemma_commas(digits: Seq<char>)
    requires
        digits.len() > 0,
        forall|i: int| 0 <= i < digits.len() ==> #[trigger] digits[i] != ',',
    ensures
        ({
            let text = grouped(digits);
            &&& text.len() > 0
            &&& text[0] != ','
            &&& forall|i: int|
                0 <= i < text.len() ==> (#[trigger] text[i] == ',' <==> (text.len() - 1 - i) % 4
                    == 3)
        }),
    decreases digits.len(),
{
    let text = grouped(digits);
    if digits.len() > 3 {
        reveal_strlit(",");
        let front = digits.take(digits.len() - 3);
        let back = digits.skip(digits.len() - 3);
        lemma_commas(front);
        let head = grouped(front);
        assert(text == head + ","@ + back);
        assert(text[0] == head[0]);
        assert forall|i: int| 0 <= i < text.len() implies (#[trigger] text[i] == ',' <==> (
        text.len() - 1 - i) % 4 == 3) by {
            if i < head.len() {
                assert(text[i] == head[i]);
                assert((text.len() - 1 - i) == (head.len() - 1 - i) + 4);
            } else if i == head.len() {
                assert(text[i] == ',');
            } else {
                assert(text[i] == back[i - head.len() - 1]);
            }
        }
    }
}

/// Two decimal digits that spell `n`.
pub open spec fn spells_in_two_digits(digits: Seq<char>, n: int) -> bool {
    &&& digits.len() == 2
    &&& 0 <= digit_value(digits[0]) < 10
    &&& 0 <= digit_value(digits[1]) < 10
    &&& 10 * digit_value(digits[0]) + digit_value(digits[1]) == n
}

/// A duration reads back: below a minute as its seconds, below an hour as minutes
/// and seconds that make it up, and above as hours and minutes that fall short of
/// it by less than a minute.
pub proof fn durations_read_back(seconds: u64, r: String, unknown: String)
    requires
        call_ensures(format_duration, (Some(seconds),), r),
        call_ensures(format_duration, (None,), unknown),
    ensures
        unknown@ == "-"@,
        seconds < 60 ==> exists|s: Seq<char>| #[trigger]
            spells(s, seconds as int) && r@ == s + "s"@,
        60 <= seconds < 3600 ==> exists|m: Seq<char>, minutes: int, s: Seq<char>, rest: int|
            {
                &&& #[trigger] spells(m, minutes)
                &&& #[trigger] spells(s, rest)
                &&& 60 * minutes + rest == seconds
                &&& 0 <= rest < 60
                &&& r@ == m + "m "@ + s + "s"@
            },
        3600 <= seconds ==> exists|h: Seq<char>, hours: int, m: Seq<char>, minutes: int|
            {
                &&& #[trigger] spells(h, hours)
                &&& #[trigger] spells_in_two_digits(m, minutes)
                &&& 0 <= minutes < 60
                &&& 3600 * hours + 60 * minutes <= seconds < 3600 * hours + 60 * minutes + 60
                &&& r@ == h + "h "@ + m + "m"@
            },
{
    assert(r@ == duration_text(Some(seconds)));
    if seconds < 60 {
        crate::text::decimal_spells(seconds as nat);
    } else if seconds < 3600 {
        crate::text::decimal_spells((seconds / 60) as nat);
        crate::text::decimal_spells((seconds % 60) as nat);
        assert(60 * (seconds / 60) + seconds % 60 == seconds);
    } else {
        let minutes = (seconds % 3600 / 60) as nat;
        crate::text::decimal_spells((seconds / 3600) as nat);
        lemma_two_digits(minutes);
        assert(3600 * (seconds / 3600) + seconds % 3600 == seconds);
        assert(60 * minutes <= seconds % 3600 < 60 * minutes + 60);
        assert(spells_in_two_digits(two_digits(minutes), minutes as int));
    }
}

proof fn lemma_two_digits(n: nat)
    requires
        n < 60,
    ensures
        spells_in_two_digits(two_digits(n), n as int),
{
    reveal_strlit("0");
    reveal_with_fuel(crate::text::numeral, 2);
    assert(crate::text::decimal(n) == crate::text::numeral(n, 10));
    if n < 10 {
        assert(crate::text::decimal(n) =~= seq![crate::text::digit(n)]);
        assert(two_digits(n) =~= seq!['0', crate::text::digit(n)]);
    } else {
        assert(crate::text::decimal(n) =~= seq![
            crate::text::digit(n / 10),
            crate::text::digit(n % 10),
        ]);
    }
}

/// `text` is `value`, or a dash where `value` is blank.
pub open spec fn shown_or_dash(value: Seq<char>, text: Seq<char>) -> bool {
    if is_blank(value) {
        text == "-"@
    } else {
        text == value
    }
}

proof fn lemma_dashed(value: Seq<char>)
    ensures
        shown_or_dash(value, dashed(value)),
{
    crate::text::blank_iff_trim_empty(value);
}

/// A value is shown as it is, white space around it included, unless it is blank.
pub proof fn only_blanks_are_dashed(value: &str, r: &str)
    requires
        call_ensures(empty_dash, (value,), r),
    ensures
        shown_or_dash(value@, r@),
{
    assert(r@ == dashed(value@));
    lemma_dashed(value@);
}

/// The service is known, by that name.
pub open spec fn is_called(service: Option<&'static str>, name: Seq<char>) -> bool {
    service is Some && service->0@ == name
}

/// The services that are known, and the ports that they are known for.
pub proof fn services_by_port(port: u16, r: Option<&'static str>)
    requires
        call_ensures(common_service, (port,), r),
    ensures
        port == 20 ==> is_called(r, "FTP-data"@),
        port == 21 ==> is_called(r, "FTP"@),
        port == 22 ==> is_called(r, "SSH"@),
        port == 23 ==> is_called(r, "Telnet"@),
        port == 25 ==> is_called(r, "SMTP"@),
        port == 53 ==> is_called(r, "DNS"@),
        (port == 67 || port == 68) ==> is_called(r, "DHCP"@),
        port == 80 ==> is_called(r, "HTTP"@),
        port == 110 ==> is_called(r, "POP3"@),
        port == 111 ==> is_called(r, "RPC"@),
        port == 123 ==> is_called(r, "NTP"@),
        port == 135 ==> is_called(r, "MS RPC"@),
        (port == 137 || port == 138 || port == 139) ==> is_called(r, "NetBIOS"@),
        port == 143 ==> is_called(r, "IMAP"@),
        port == 161 ==> is_called(r, "SNMP"@),
        port == 389 ==> is_called(r, "LDAP"@),
        port == 443 ==> is_called(r, "HTTPS"@),
        port == 445 ==> is_called(r, "SMB"@),
        port == 465 ==> is_called(r, "SMTPS"@),
        port == 587 ==> is_called(r, "SMTP submission"@),
        port == 636 ==> is_called(r, "LDAPS"@),
        port == 993 ==> is_called(r, "IMAPS"@),
        port == 995 ==> is_called(r, "POP3S"@),
        port == 1433 ==> is_called(r, "MSSQL"@),
        port == 1521 ==> is_called(r, "Oracle"@),
        port == 3306 ==> is_called(r, "MySQL"@),
        port == 3389 ==> is_called(r, "RDP"@),
        port == 5432 ==> is_called(r, "PostgreSQL"@),
        port == 5900 ==> is_called(r, "VNC"@),
        port == 6379 ==> is_called(r, "Redis"@),
        port == 8080 ==> is_called(r, "HTTP-alt"@),
        port == 8443 ==> is_called(r, "HTTPS-alt"@),
        port == 27017 ==> is_called(r, "MongoDB"@),
        r is Some ==> seq![
            20u16, 21, 22, 23, 25, 53, 67, 68, 80, 110, 111, 123, 135, 137, 138, 139, 143,
            161, 389, 443, 445, 465, 587, 636, 993, 995, 1433, 1521, 3306, 3389, 5432,
            5900, 6379, 8080, 8443, 27017,
        ].contains(port),
{
    let known = seq![
        20u16, 21, 22, 23, 25, 53, 67, 68, 80, 110, 111, 123, 135, 137, 138, 139, 143,
        161, 389, 443, 445, 465, 587, 636, 993, 995, 1433, 1521, 3306, 3389, 5432, 5900,
        6379, 8080, 8443, 27017,
    ];
    assert(r is Some <==> service(port) is Some);
    if let Some(name) = r {
        assert(service(port) == Some(name@));
        assert(known[0] == 20);
        assert(known[1] == 21);
        assert(known[2] == 22);
        assert(known[3] == 23);
        assert(known[4] == 25);
        assert(known[5] == 53);
        assert(known[6] == 67);
        assert(known[7] == 68);
        assert(known[8] == 80);
        assert(known[9] == 110);
        assert(known[10] == 111);
        assert(known[11] == 123);
        assert(known[12] == 135);
        assert(known[13] == 137);
        assert(known[14] == 138);
        assert(known[15] == 139);
        assert(known[16] == 143);
        assert(known[17] == 161);
        assert(known[18] == 389);
        assert(known[19] == 443);
        assert(known[20] == 445);
        assert(known[21] == 465);
        assert(known[22] == 587);
        assert(known[23] == 636);
        assert(known[24] == 993);
        assert(known[25] == 995);
        assert(known[26] == 1433);
        assert(known[27] == 1521);
        assert(known[28] == 3306);
        assert(known[29] == 3389);
        assert(known[30] == 5432);
        assert(known[31] == 5900);
        assert(known[32] == 6379);
        assert(known[33] == 8080);
        assert(known[34] == 8443);
        assert(known[35] == 27017);
    }
}

/// The name of an open port is its number, and behind a dot its service where it
/// has one.
pub proof fn ports_are_named_by_number(
    port: u16,
    r: String,
    service_name: Option<&'static str>,
)
    requires
        call_ensures(port_label, (port,), r),
        call_ensures(common_service, (port,), service_name),
    ensures
        begins_with_number(r@, port as int),
        service_name is None ==> spells(r@, port as int),
        service_name matches Some(name) ==> exists|number: Seq<char>| #[trigger]
            spells(number, port as int) && r@ == number + " • "@ + name@,
{
    assert(r@ == port_text(port));
    lemma_port_text_begins(port);
    crate::text::decimal_spells(port as nat);
}

proof fn lemma_port_text_begins(port: u16)
    ensures
        begins_with_number(port_text(port), port as int),
{
    reveal_strlit(" • ");
    let number = crate::text::decimal(port as nat);
    let text = port_text(port);
    crate::text::decimal_spells(port as nat);
    assert(text.take(number.len() as int) =~= number);
    assert(spells(text.take(number.len() as int), port as int));
    if number.len() < text.len() {
        assert(text[number.len() as int] == ' ');
    }
}

/// Whether a scan is under way or has ended, its panel names every open port, in
/// order, and gives their number where there are any; that none was found is said
/// only where there are none, once the scan has ended.
pub proof fn a_panel_names_every_open_port(
    ip: IpAddr,
    scan: &PortScanState,
    rate: Option<ScanRate>,
    r: ScanPanel,
)
    requires
        call_ensures(scan_panel, (ip, scan, rate), r),
    ensures
        r.open_labels@.len() == scan.open_ports@.len(),
        forall|i: int|
            0 <= i < scan.open_ports@.len() ==> begins_with_number(
                (#[trigger] r.open_labels@[i])@,
                scan.open_ports@[i] as int,
            ),
        r.open_title is Some <==> scan.open_ports@.len() > 0,
        r.open_title matches Some(title) ==> exists|number: Seq<char>| #[trigger]
            spells(number, scan.open_ports@.len() as int) && title@ == "Open TCP ports ("@ + number
                + ")"@,
        r.note is Some <==> scan.finished && scan.open_ports@.len() == 0,
        r.note matches Some(note) ==> note@ == "No open TCP ports found on "@
            + crate::addr::ip_text(ip) + "."@,
{
    let panel = panel_of(ip, scan@, rate);
    assert(r@ == panel);
    assert(crate::text::texts(r.open_labels@) == panel.open_labels);
    assert(r.open_labels@.len() == panel.open_labels.len());
    assert forall|i: int| 0 <= i < scan.open_ports@.len() implies begins_with_number(
        (#[trigger] r.open_labels@[i])@,
        scan.open_ports@[i] as int,
    ) by {
        assert(crate::text::texts(r.open_labels@)[i] == r.open_labels@[i]@);
        lemma_port_text_begins(scan.open_ports@[i]);
    }
    crate::text::decimal_spells(scan.open_ports@.len());
    assert(crate::results::opt_view(r.open_title) == panel.open_title);
    assert(crate::results::opt_view(r.note) == panel.note);
}

/// Each name on the panel is the one that the port has by itself.
pub proof fn a_panel_names_ports_as_they_are_named(
    ip: IpAddr,
    scan: &PortScanState,
    rate: Option<ScanRate>,
    r: ScanPanel,
    i: int,
    name: String,
)
    requires
        call_ensures(scan_panel, (ip, scan, rate), r),
        0 <= i < scan.open_ports@.len(),
        call_ensures(port_label, (scan.open_ports@[i],), name),
    ensures
        i < r.open_labels@.len(),
        r.open_labels@[i]@ == name@,
{
    let panel = panel_of(ip, scan@, rate);
    assert(r@ == panel);
    assert(crate::text::texts(r.open_labels@) == panel.open_labels);
    assert(r.open_labels@.len() == panel.open_labels.len());
    assert(crate::text::texts(r.open_labels@)[i] == r.open_labels@[i]@);
}

/// A panel tells whether its scan has ended, how far it has come, and its four
/// counts under their titles; where the speed is known it comes fifth, and the
/// time sixth: what was taken once the scan has ended, else what is left.
pub proof fn a_panel_shows_the_counts(
    ip: IpAddr,
    scan: &PortScanState,
    rate: Option<ScanRate>,
    r: ScanPanel,
)
    requires
        call_ensures(scan_panel, (ip, scan, rate), r),
    ensures
        scan.finished ==> r.badge@ == "COMPLETE"@,
        !scan.finished ==> r.badge@ == "SCANNING"@,
        exists|done: Seq<char>, all: Seq<char>|
            {
                &&& #[trigger] spells_in_groups(done, scan.completed as int)
                &&& #[trigger] spells_in_groups(all, scan.total as int)
                &&& r.progress@ == done + "/"@ + all + " ports"@
            },
        r.chips@.len() == if rate is Some {
            6int
        } else {
            4
        },
        r.chips@[0].title@ == "Scanned"@ && spells_in_groups(
            r.chips@[0].value@,
            scan.completed as int,
        ),
        r.chips@[1].title@ == "Open"@ && spells_in_groups(r.chips@[1].value@, scan.open as int),
        r.chips@[2].title@ == "Closed"@ && spells_in_groups(r.chips@[2].value@, scan.closed as int),
        r.chips@[3].title@ == "Filtered"@ && spells_in_groups(
            r.chips@[3].value@,
            scan.filtered as int,
        ),
        rate matches Some(known) ==> {
            &&& r.chips@[4].title@ == "Speed"@
            &&& exists|number: Seq<char>| #[trigger]
                spells(number, known.ports_per_second as int) && r.chips@[4].value@ == number
                    + " ports/s"@
            &&& r.chips@[5].title@ == if scan.finished {
                "Time"@
            } else {
                "ETA"@
            }
        },
{
    let panel = panel_of(ip, scan@, rate);
    assert(r@ == panel);
    lemma_number_text_spells(scan.completed as int);
    lemma_number_text_spells(scan.total as int);
    lemma_number_text_spells(scan.open as int);
    lemma_number_text_spells(scan.closed as int);
    lemma_number_text_spells(scan.filtered as int);
    lemma_labelled(r.chips@, panel.chips);
    if let Some(known) = rate {
        crate::text::decimal_spells(known.ports_per_second as nat);
    }
}

proof fn lemma_labelled(items: Seq<Labelled>, shown: Seq<(Seq<char>, Seq<char>)>)
    requires
        labelled(items) == shown,
    ensures
        items.len() == shown.len(),
        forall|i: int|
            0 <= i < items.len() ==> (#[trigger] items[i]).title@ == shown[i].0
                && items[i].value@ == shown[i].1,
{
    assert forall|i: int| 0 <= i < items.len() implies (#[trigger] items[i]).title@ == shown[i].0
        && items[i].value@ == shown[i].1 by {
        assert(labelled(items)[i] == items[i]@);
    }
}

/// The time on a panel is written as durations are.
pub proof fn a_panel_shows_the_time(
    ip: IpAddr,
    scan: &PortScanState,
    rate: ScanRate,
    r: ScanPanel,
    taken: String,
    left: String,
)
    requires
        call_ensures(scan_panel, (ip, scan, Some(rate)), r),
        call_ensures(format_duration, (rate.elapsed,), taken),
        call_ensures(format_duration, (rate.eta,), left),
    ensures
        r.chips@.len() == 6,
        scan.finished ==> r.chips@[5].value@ == taken@,
        !scan.finished ==> r.chips@[5].value@ == left@,
{
    let panel = panel_of(ip, scan@, Some(rate));
    assert(r@ == panel);
    lemma_labelled(r.chips@, panel.chips);
}

/// A card shows what the result holds: under the address, whether it replied and
/// after how many milliseconds, its name, and its location.
pub proof fn a_card_shows_its_result(result: &IpResult, r: ResultCard)
    requires
        call_ensures(result_card, (result,), r),
    ensures
        r.heading@ == crate::addr::ip_text(result.ip),
        result.ip is V4 ==> r.family@ == "IPv4"@,
        result.ip is V6 ==> r.family@ == "IPv6"@,
        r.online == result.ping_ok,
        result.rtt_ms is None ==> r.rtt@ == "-"@,
        result.rtt_ms matches Some(ms) ==> exists|number: Seq<char>| #[trigger]
            spells(number, ms as int) && r.rtt@ == number + " ms"@,
        result.reverse_dns is None ==> r.reverse_dns@ == "-"@,
        result.reverse_dns matches Some(name) ==> r.reverse_dns@ == name@,
        r.details is Some <==> result.geo is Some,
        result.geo is None ==> r.location@ == "-"@,
        result.geo matches Some(geo) ==> exists|
            city: Seq<char>,
            region: Seq<char>,
            country: Seq<char>,
        |
            {
                &&& #[trigger] shown_or_dash(geo.city@, city)
                &&& #[trigger] shown_or_dash(geo.region@, region)
                &&& #[trigger] shown_or_dash(geo.country@, country)
                &&& r.location@ == city + ", "@ + region + ", "@ + country
            },
{
    let card = card_of(result@);
    assert(r@ == card);
    assert(crate::results::opt_view(r.details) == card.details);
    if let Some(ms) = result.rtt_ms {
        crate::text::decimal_spells(ms as nat);
    }
    if let Some(name) = result.reverse_dns {
        assert(result@.reverse_dns == Some(name@));
    }
    if let Some(geo) = result.geo {
        assert(result@.geo == Some(geo@));
        lemma_dashed(geo.city@);
        lemma_dashed(geo.region@);
        lemma_dashed(geo.country@);
    }
}

/// The details of a location show each of its five texts under its title, or a
/// dash, and both coordinates where both are known.
pub proof fn details_show_the_location(
    result: &IpResult,
    r: ResultCard,
    geo: GeoInfo,
    details: GeoDetails,
)
    requires
        call_ensures(result_card, (result,), r),
        result.geo == Some(geo),
        r.details == Some(details),
    ensures
        details.grid@ == "geo_"@ + crate::addr::ip_text(result.ip),
        details.rows@.len() == 5,
        details.rows@[0].title@ == "Country"@ && shown_or_dash(
            geo.country@,
            details.rows@[0].value@,
        ),
        details.rows@[1].title@ == "Region"@ && shown_or_dash(
            geo.region@,
            details.rows@[1].value@,
        ),
        details.rows@[2].title@ == "City"@ && shown_or_dash(geo.city@, details.rows@[2].value@),
        details.rows@[3].title@ == "ISP"@ && shown_or_dash(geo.isp@, details.rows@[3].value@),
        details.rows@[4].title@ == "Organization"@ && shown_or_dash(
            geo.org@,
            details.rows@[4].value@,
        ),
        details.coordinates is Some <==> geo.latitude is Some && geo.longitude is Some,
        details.coordinates matches Some((latitude, longitude)) ==> geo.latitude == Some(latitude)
            && geo.longitude == Some(longitude),
{
    let card = card_of(result@);
    assert(r@ == card);
    assert(crate::results::opt_view(r.details) == card.details);
    assert(result@.geo == Some(geo@));
    let shown = details_of(result.ip, geo@);
    assert(details@ == shown);
    lemma_labelled(details.rows@, shown.rows);
    lemma_dashed(geo.country@);
    lemma_dashed(geo.region@);
    lemma_dashed(geo.city@);
    lemma_dashed(geo.isp@);
    lemma_dashed(geo.org@);
}

/// The addresses of those results of which `holds` is true.
pub open spec fn addresses_where(
    table: Map<IpAddr, ResultModel>,
    holds: spec_fn(ResultModel) -> bool,
) -> Set<IpAddr> {
    table.dom().filter(|ip: IpAddr| holds(table[ip]))
}

proof fn lemma_counted(
    listing: Seq<ResultModel>,
    table: Map<IpAddr, ResultModel>,
    holds: spec_fn(ResultModel) -> bool,
)
    requires
        lists(listing, table),
    ensures
        addresses_where(table, holds).finite(),
        addresses_where(table, holds).len() == count_where(listing, holds),
    decreases listing.len(),
{
    if listing.len() == 0 {
        assert(addresses_where(table, holds) =~= Set::<IpAddr>::empty());
    } else {
        let last = listing.last();
        let fewer = table.remove(last.ip);
        let front = listing.drop_last();
        assert(lists(front, fewer)) by {
            assert forall|i: int| 0 <= i < front.len() implies fewer.dom().contains(
                #[trigger] front[i].ip,
            ) && fewer[front[i].ip] == front[i] by {
                assert(front[i] == listing[i]);
                assert(crate::addr::rank(listing[i].ip) < crate::addr::rank(
                    listing[listing.len() - 1].ip,
                ));
            }
            assert forall|i: int, j: int| 0 <= i < j < front.len() implies crate::addr::rank(
                #[trigger] front[i].ip,
            ) < crate::addr::rank(#[trigger] front[j].ip) by {
                assert(front[i] == listing[i] && front[j] == listing[j]);
            }
            assert forall|ip: IpAddr| #[trigger] fewer.dom().contains(ip) implies exists|i: int|
                0 <= i < front.len() && #[trigger] front[i].ip == ip by {
                assert(table.dom().contains(ip));
                let i = choose|i: int| 0 <= i < listing.len() && #[trigger] listing[i].ip == ip;
                assert(front[i].ip == ip);
            }
        }
        lemma_counted(front, fewer, holds);
        assert(listing[listing.len() - 1] == last);
        assert(table.dom().contains(last.ip) && table[last.ip] == last);
        let chosen = addresses_where(table, holds);
        let others = addresses_where(fewer, holds);
        assert(!others.contains(last.ip));
        if holds(last) {
            assert(chosen =~= others.insert(last.ip));
        } else {
            assert(chosen =~= others);
        }
    }
}

/// The summary counts the addresses that are known, those of them that replied,
/// and those that were scanned.
pub proof fn a_summary_counts_addresses(results: &ResultTable, r: Summary)
    requires
        call_ensures(summary, (results,), r),
    ensures
        r.resolved == results@.dom().len(),
        r.online == addresses_where(results@, |result: ResultModel| result.ping_ok).len(),
        r.scanned == addresses_where(
            results@,
            |result: ResultModel| result.port_scan is Some,
        ).len(),
{
    let listing = in_order(results@);
    let any = |result: ResultModel| true;
    lemma_counted(listing, results@, |result: ResultModel| result.ping_ok);
    lemma_counted(listing, results@, |result: ResultModel| result.port_scan is Some);
    lemma_counted(listing, results@, any);
    lemma_count_all(listing, any);
    assert(addresses_where(results@, any) =~= results@.dom());
}

proof fn lemma_count_all(listing: Seq<ResultModel>, any: spec_fn(ResultModel) -> bool)
    requires
        any == (|result: ResultModel| true),
    ensures
        count_where(listing, any) == listing.len(),
    decreases listing.len(),
{
    if listing.len() > 0 {
        lemma_count_all(listing.drop_last(), any);
    }
}

/// The open ports of the summary are the sum of those that each scan has counted.
pub proof fn a_summary_adds_up_open_ports(results: &ResultTable, r: Summary)
    requires
        call_ensures(summary, (results,), r),
    ensures
        r.open_ports == in_order(results@).fold_left(
            0int,
            |sum: int, result: ResultModel|
                if result.port_scan is Some {
                    sum + result.port_scan->0.open
                } else {
                    sum
                },
        ),
{
    lemma_open_total_adds_up(in_order(results@));
}

proof fn lemma_open_total_adds_up(listing: Seq<ResultModel>)
    ensures
        open_total(listing) == listing.fold_left(
            0int,
            |sum: int, result: ResultModel|
                if result.port_scan is Some {
                    sum + result.port_scan->0.open
                } else {
                    sum
                },
        ),
    decreases listing.len(),
{
    reveal_with_fuel(Seq::fold_left, 2);
    if listing.len() > 0 {
        lemma_open_total_adds_up(listing.drop_last());
    }
}

} // verus!
