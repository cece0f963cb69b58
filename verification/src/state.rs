//! The state of the inspector: what the user may start and stop, and how the
//! reports of the workers change what is known.

use vstd::prelude::*;

use crate::addr::{ip_text, IpAddr};
use crate::display::{duration_text, format_duration, ScanRate};
use crate::geo::{GeoInfo, GeoModel};
use crate::results::{opt_view, unknown_result, IpResult, ResultModel, ResultTable};
use crate::scan::{
    after_check, after_finish, elapsed_at, has_room, idle_scan, remaining_of, started_scan,
    PortScanState, PortState, MAX_PORT_CONCURRENCY,
};
use crate::text::{push_decimal, trimmed};

verus! {

/// The shortest timeout that can be set, in milliseconds.
pub const MIN_TIMEOUT_MS: u64 = 100;

/// The longest timeout that can be set, in milliseconds.
pub const MAX_TIMEOUT_MS: u64 = 5000;

/// The smallest number of workers that can be set.
pub const MIN_WORKERS: usize = 1;

/// The largest number of workers that can be set.
pub const MAX_WORKERS: usize = 512;

/// How far a scan has come, and after how many nanoseconds.
#[derive(Clone, Copy, Debug, PartialEq, Eq, Structural)]
pub struct ScanProgress {
    pub ip: IpAddr,
    pub completed: usize,
    pub total: usize,
    pub elapsed: u64,
}

impl ScanProgress {
    /// The number of ports that are still to come.
    pub fn remaining(&self) -> (r: usize)
        ensures
            r == remaining_of(self.total as int, self.completed as int),
    {
        self.total.saturating_sub(self.completed)
    }
}

/// The status line: a text, or the progress of a scan, whose text depends on its
/// speed.
#[derive(Clone, Debug)]
pub enum Status {
    Text(String),
    Scanning(ScanProgress),
}

/// What a [`Status`] holds.
pub enum StatusModel {
    Text(Seq<char>),
    Scanning(ScanProgress),
}

impl View for Status {
    type V = StatusModel;

    open spec fn view(&self) -> StatusModel {
        match *self {
            Status::Text(text) => StatusModel::Text(text@),
            Status::Scanning(progress) => StatusModel::Scanning(progress),
        }
    }
}

/// The text that counts the ports of a scan.
pub open spec fn count_text(ip: IpAddr, completed: int, total: int) -> Seq<char> {
    "Scanning "@ + ip_text(ip) + ": "@ + crate::text::decimal(completed as nat) + " / "@
        + crate::text::decimal(total as nat)
}

/// The text of the status line, where `rate` is the speed of the scan that is
/// under way.
pub open spec fn status_text(status: StatusModel, rate: ScanRate) -> Seq<char> {
    match status {
        StatusModel::Text(text) => text,
        StatusModel::Scanning(p) => count_text(p.ip, p.completed as int, p.total as int)
            + "  •  "@ + crate::text::decimal(rate.ports_per_second as nat)
            + " ports/s  •  ETA "@ + duration_text(rate.eta),
    }
}

fn push_count(out: &mut String, ip: IpAddr, completed: usize, total: usize)
    ensures
        final(out)@ == old(out)@ + count_text(ip, completed as int, total as int),
{
    out.append("Scanning ");
    ip.push_text(out);
    out.append(": ");
    push_decimal(out, completed as u128);
    out.append(" / ");
    push_decimal(out, total as u128);
    assert(out@ =~= old(out)@ + count_text(ip, completed as int, total as int));
}

fn text_around(before: &str, ip: IpAddr, after: &str) -> (r: Status)
    ensures
        r@ == StatusModel::Text(before@ + ip_text(ip) + after@),
{
    let mut text: String = before.to_owned();
    ip.push_text(&mut text);
    text.append(after);
    Status::Text(text)
}

fn count_status(ip: IpAddr, completed: usize, total: usize) -> (r: Status)
    ensures
        r@ == StatusModel::Text(count_text(ip, completed as int, total as int)),
{
    let mut text: String = String::new();
    push_count(&mut text, ip, completed, total);
    assert(text@ =~= count_text(ip, completed as int, total as int));
    Status::Text(text)
}

impl Status {
    /// The text of the status line.
    pub fn text(&self, rate: ScanRate) -> (r: String)
        ensures
            r@ == status_text(self@, rate),
    {
        match self {
            Status::Text(text) => text.clone(),
            Status::Scanning(p) => {
                let mut out: String = String::new();
                push_count(&mut out, p.ip, p.completed, p.total);
                out.append("  •  ");
                push_decimal(&mut out, rate.ports_per_second as u128);
                out.append(" ports/s  •  ETA ");
                out.append(format_duration(rate.eta).as_str());
                assert(out@ =~= status_text(self@, rate));
                out
            },
        }
    }
}

/// What a worker reports.
#[derive(Clone, Debug)]
pub enum WorkerMessage {
    Status(String),
    Resolved(Vec<IpAddr>),
    PingResult { ip: IpAddr, ok: bool, rtt_ms: Option<u128> },
    ReverseDns { ip: IpAddr, hostname: Option<String> },
    GeoResult { ip: IpAddr, info: Option<GeoInfo> },
    PortScanStarted { ip: IpAddr, total: usize },
    PortChecked { ip: IpAddr, port: u16, state: PortState },
    PortScanFinished { ip: IpAddr },
    Finished,
    Error(String),
}

/// What a [`WorkerMessage`] holds.
pub enum MessageModel {
    Status(Seq<char>),
    Resolved(Seq<IpAddr>),
    PingResult { ip: IpAddr, ok: bool, rtt_ms: Option<u128> },
    ReverseDns { ip: IpAddr, hostname: Option<Seq<char>> },
    GeoResult { ip: IpAddr, info: Option<GeoModel> },
    PortScanStarted { ip: IpAddr, total: usize },
    PortChecked { ip: IpAddr, port: u16, state: PortState },
    PortScanFinished { ip: IpAddr },
    Finished,
    Error(Seq<char>),
}

impl View for WorkerMessage {
    type V = MessageModel;

    open spec fn view(&self) -> MessageModel {
        match *self {
            WorkerMessage::Status(text) => MessageModel::Status(text@),
            WorkerMessage::Resolved(ips) => MessageModel::Resolved(ips@),
            WorkerMessage::PingResult { ip, ok, rtt_ms } => MessageModel::PingResult {
                ip,
                ok,
                rtt_ms,
            },
            WorkerMessage::ReverseDns { ip, hostname } => MessageModel::ReverseDns {
                ip,
                hostname: opt_view(hostname),
            },
            WorkerMessage::GeoResult { ip, info } => MessageModel::GeoResult {
                ip,
                info: opt_view(info),
            },
            WorkerMessage::PortScanStarted { ip, total } => MessageModel::PortScanStarted {
                ip,
                total,
            },
            WorkerMessage::PortChecked { ip, port, state } => MessageModel::PortChecked {
                ip,
                port,
                state,
            },
            WorkerMessage::PortScanFinished { ip } => MessageModel::PortScanFinished { ip },
            WorkerMessage::Finished => MessageModel::Finished,
            WorkerMessage::Error(text) => MessageModel::Error(text@),
        }
    }
}

/// A report, and the reading of a monotonic clock in nanoseconds at which it is
/// taken up.
#[derive(Clone, Debug)]
pub struct Delivery {
    pub message: WorkerMessage,
    pub now: u64,
}

/// The state of the inspector.
///
/// `listening` tells that the reports of a worker are still taken up, and
/// `cancellable` that there is a worker which can be told to stop.
pub struct App {
    pub domain: String,
    pub timeout_ms: u64,
    pub workers: usize,
    pub results: ResultTable,
    pub status: Status,
    pub running: bool,
    pub listening: bool,
    pub cancellable: bool,
    pub selected_ip: Option<IpAddr>,
}

/// What an [`App`] holds.
pub struct AppModel {
    pub domain: Seq<char>,
    pub timeout_ms: u64,
    pub workers: usize,
    pub results: Map<IpAddr, ResultModel>,
    pub status: StatusModel,
    pub running: bool,
    pub listening: bool,
    pub cancellable: bool,
    pub selected_ip: Option<IpAddr>,
}

impl View for App {
    type V = AppModel;

    open spec fn view(&self) -> AppModel {
        AppModel {
            domain: self.domain@,
            timeout_ms: self.timeout_ms,
            workers: self.workers,
            results: self.results@,
            status: self.status@,
            running: self.running,
            listening: self.listening,
            cancellable: self.cancellable,
            selected_ip: self.selected_ip,
        }
    }
}

/// A lookup to be made.
#[derive(Clone, Debug)]
pub struct ResolveJob {
    pub domain: String,
    pub timeout_ms: u64,
    pub workers: usize,
}

/// What a [`ResolveJob`] holds.
pub struct ResolveModel {
    pub domain: Seq<char>,
    pub timeout_ms: u64,
    pub workers: usize,
}

impl View for ResolveJob {
    type V = ResolveModel;

    open spec fn view(&self) -> ResolveModel {
        ResolveModel {
            domain: self.domain@,
            timeout_ms: self.timeout_ms,
            workers: self.workers,
        }
    }
}

/// A port scan to be made: how many milliseconds each connection attempt may
/// take, and how many attempts may be under way at once.
#[derive(Clone, Copy, Debug, PartialEq, Eq, Structural)]
pub struct ScanJob {
    pub ip: IpAddr,
    pub timeout_ms: u64,
    pub limit: usize,
}

/// The state at the start of the program.
pub open spec fn initial() -> AppModel {
    AppModel {
        domain: Seq::empty(),
        timeout_ms: 750,
        workers: 256,
        results: Map::empty(),
        status: StatusModel::Text("Enter a domain and press Resolve / Inspect."@),
        running: false,
        listening: false,
        cancellable: false,
        selected_ip: None,
    }
}

/// The lookup that a request starts: none while a worker runs, and none for a
/// blank domain.
pub open spec fn resolve_job(app: AppModel) -> Option<ResolveModel> {
    if app.running || crate::text::trim(app.domain).len() == 0 {
        None
    } else {
        Some(
            ResolveModel {
                domain: crate::text::trim(app.domain),
                timeout_ms: app.timeout_ms,
                workers: if app.workers < 1 {
                    1
                } else {
                    app.workers
                },
            },
        )
    }
}

/// The state after a request to resolve the domain.
pub open spec fn after_resolve_request(app: AppModel) -> AppModel {
    if app.running {
        app
    } else if crate::text::trim(app.domain).len() == 0 {
        AppModel { status: StatusModel::Text("Enter a domain first."@), ..app }
    } else {
        AppModel {
            results: Map::empty(),
            selected_ip: None,
            running: true,
            listening: true,
            cancellable: true,
            ..app
        }
    }
}

/// The number of connection attempts of a scan that may be under way at once:
/// the number of workers that is set, but at least one and at most
/// [`MAX_PORT_CONCURRENCY`].
pub open spec fn attempt_limit(workers: usize) -> usize {
    if workers < 1 {
        1
    } else if workers > MAX_PORT_CONCURRENCY {
        MAX_PORT_CONCURRENCY
    } else {
        workers
    }
}

/// The scan that a request starts, with the timeout and the number of workers
/// that are set: none while a worker runs.
pub open spec fn scan_job(app: AppModel, ip: IpAddr) -> Option<ScanJob> {
    if app.running {
        None
    } else {
        Some(ScanJob { ip, timeout_ms: app.timeout_ms, limit: attempt_limit(app.workers) })
    }
}

/// The state after a request to scan the ports of `ip`.
pub open spec fn after_scan_request(app: AppModel, ip: IpAddr) -> AppModel {
    if app.running {
        app
    } else {
        AppModel {
            results: if app.results.dom().contains(ip) {
                app.results.insert(
                    ip,
                    ResultModel { port_scan: Some(idle_scan()), ..app.results[ip] },
                )
            } else {
                app.results
            },
            running: true,
            listening: true,
            cancellable: true,
            selected_ip: Some(ip),
            status: StatusModel::Text(
                "Starting fast TCP scan for "@ + ip_text(ip) + "..."@,
            ),
            ..app
        }
    }
}

/// The state after a request to stop.
pub open spec fn after_stop(app: AppModel) -> AppModel {
    AppModel {
        running: false,
        cancellable: false,
        status: StatusModel::Text("Stopped."@),
        ..app
    }
}

/// The state after a request to clear the results.
pub open spec fn after_clear(app: AppModel) -> AppModel {
    if app.running {
        app
    } else {
        AppModel {
            results: Map::empty(),
            selected_ip: None,
            status: StatusModel::Text("Cleared."@),
            ..app
        }
    }
}

/// The results with each of `ips` among them, and nothing known of it.
pub open spec fn with_unknown(results: Map<IpAddr, ResultModel>, ips: Seq<IpAddr>) -> Map<
    IpAddr,
    ResultModel,
>
    decreases ips.len(),
{
    if ips.len() == 0 {
        results
    } else {
        with_unknown(results, ips.drop_last()).insert(ips.last(), unknown_result(ips.last()))
    }
}

/// The results with `result` for its address, where that address is known.
pub open spec fn replaced(results: Map<IpAddr, ResultModel>, result: ResultModel) -> Map<
    IpAddr,
    ResultModel,
> {
    if results.dom().contains(result.ip) {
        results.insert(result.ip, result)
    } else {
        results
    }
}

/// The record of a scan is kept for `ip`.
pub open spec fn has_scan(app: AppModel, ip: IpAddr) -> bool {
    app.results.dom().contains(ip) && app.results[ip].port_scan is Some
}

/// The status line after a verdict that leaves the record of the scan at `scan`.
pub open spec fn progress_status(ip: IpAddr, scan: crate::scan::ScanModel, now: u64) -> StatusModel {
    match elapsed_at(scan, now) {
        Some(elapsed) => StatusModel::Scanning(
            ScanProgress {
                ip,
                completed: scan.completed as usize,
                total: scan.total as usize,
                elapsed,
            },
        ),
        None => StatusModel::Text(count_text(ip, scan.completed, scan.total)),
    }
}

/// The state after a report that is taken up at `now`.
pub open spec fn step(app: AppModel, message: MessageModel, now: u64) -> AppModel {
    match message {
        MessageModel::Status(text) => AppModel { status: StatusModel::Text(text), ..app },
        MessageModel::Resolved(ips) => AppModel { results: with_unknown(app.results, ips), ..app },
        MessageModel::PingResult { ip, ok, rtt_ms } => AppModel {
            results: replaced(
                app.results,
                ResultModel { ip, ping_ok: ok, rtt_ms, ..app.results[ip] },
            ),
            ..app
        },
        MessageModel::ReverseDns { ip, hostname } => AppModel {
            results: replaced(
                app.results,
                ResultModel { ip, reverse_dns: hostname, ..app.results[ip] },
            ),
            ..app
        },
        MessageModel::GeoResult { ip, info } => AppModel {
            results: replaced(app.results, ResultModel { ip, geo: info, ..app.results[ip] }),
            ..app
        },
        MessageModel::PortScanStarted { ip, total } => AppModel {
            results: replaced(
                app.results,
                ResultModel {
                    ip,
                    port_scan: Some(started_scan(total as int, now)),
                    ..app.results[ip]
                },
            ),
            status: StatusModel::Text(count_text(ip, 0, total as int)),
            ..app
        },
        MessageModel::PortChecked { ip, port, state } => if has_scan(app, ip) {
            let scan = after_check(app.results[ip].port_scan->0, port, state);
            AppModel {
                results: replaced(
                    app.results,
                    ResultModel { ip, port_scan: Some(scan), ..app.results[ip] },
                ),
                status: progress_status(ip, scan, now),
                ..app
            }
        } else {
            app
        },
        MessageModel::PortScanFinished { ip } => AppModel {
            results: if has_scan(app, ip) {
                replaced(
                    app.results,
                    ResultModel {
                        ip,
                        port_scan: Some(after_finish(app.results[ip].port_scan->0)),
                        ..app.results[ip]
                    },
                )
            } else {
                app.results
            },
            status: StatusModel::Text("Port scan finished for "@ + ip_text(ip) + "."@),
            ..app
        },
        MessageModel::Finished => app,
        MessageModel::Error(text) => AppModel {
            status: StatusModel::Text("Error: "@ + text),
            ..app
        },
    }
}

/// A report after which the worker has nothing more to say.
pub open spec fn is_last(message: MessageModel) -> bool {
    message is Finished || message is Error
}

/// The counters of the scan that a report concerns have room for it.
pub open spec fn fits(app: AppModel, message: MessageModel) -> bool {
    match message {
        MessageModel::PortChecked { ip, port, state } => has_scan(app, ip) ==> has_room(
            app.results[ip].port_scan->0,
            state,
        ),
        _ => true,
    }
}

/// What a series of deliveries holds.
pub open spec fn inbox_model(inbox: Seq<Delivery>) -> Seq<(MessageModel, u64)> {
    inbox.map_values(|d: Delivery| (d.message@, d.now))
}

/// The state after a series of reports.
pub open spec fn after_reports(app: AppModel, inbox: Seq<(MessageModel, u64)>) -> AppModel
    decreases inbox.len(),
{
    if inbox.len() == 0 {
        app
    } else {
        let (message, now) = inbox.last();
        step(after_reports(app, inbox.drop_last()), message, now)
    }
}

/// One of the reports is the last that a worker makes.
pub open spec fn ends(inbox: Seq<(MessageModel, u64)>) -> bool {
    exists|i: int| 0 <= i < inbox.len() && is_last(#[trigger] inbox[i].0)
}

/// Each report of a series fits when its turn comes.
pub open spec fn all_fit(app: AppModel, inbox: Seq<(MessageModel, u64)>) -> bool {
    forall|i: int|
        0 <= i < inbox.len() ==> fits(after_reports(app, inbox.take(i)), #[trigger] inbox[i].0)
}

/// The report at `k` is the first of a series that does not fit when its turn
/// comes.
pub open spec fn is_first_misfit(app: AppModel, inbox: Seq<(MessageModel, u64)>, k: int) -> bool {
    &&& 0 <= k < inbox.len()
    &&& !fits(after_reports(app, inbox.take(k)), inbox[k].0)
    &&& forall|i: int|
        0 <= i < k ==> fits(after_reports(app, inbox.take(i)), #[trigger] inbox[i].0)
}

/// The state after a series of reports, with the worker dismissed where one of
/// them was its last.
pub open spec fn after_batch(app: AppModel, finished: bool) -> AppModel {
    if finished {
        AppModel { running: false, listening: false, cancellable: false, ..app }
    } else {
        app
    }
}

/// The state after all the reports at hand have been taken up: nothing changes
/// where no worker is listened to.
pub open spec fn after_messages(app: AppModel, inbox: Seq<(MessageModel, u64)>) -> AppModel {
    if app.listening {
        after_batch(after_reports(app, inbox), ends(inbox))
    } else {
        app
    }
}

proof fn lemma_one_more(app: AppModel, inbox: Seq<(MessageModel, u64)>, i: int)
    requires
        0 <= i < inbox.len(),
    ensures
        after_reports(app, inbox.take(i + 1)) == step(
            after_reports(app, inbox.take(i)),
            inbox[i].0,
            inbox[i].1,
        ),
        ends(inbox.take(i + 1)) == (ends(inbox.take(i)) || is_last(inbox[i].0)),
{
    let done = inbox.take(i);
    let more = inbox.take(i + 1);
    assert(more.drop_last() =~= done);
    assert(more.last() == inbox[i]);
    if ends(done) {
        let k = choose|k: int| 0 <= k < done.len() && is_last(#[trigger] done[k].0);
        assert(more[k] == done[k]);
    }
    if ends(more) && !is_last(inbox[i].0) {
        let k = choose|k: int| 0 <= k < more.len() && is_last(#[trigger] more[k].0);
        assert(done[k] == more[k]);
    }
    if is_last(inbox[i].0) {
        assert(is_last(more[i].0));
    }
}

impl App {
    /// The state at the start of the program.
    pub fn new() -> (r: App)
        ensures
            r@ == initial(),
    {
        let r: App = App {
            domain: String::new(),
            timeout_ms: 750,
            workers: 256,
            results: ResultTable::new(),
            status: Status::Text("Enter a domain and press Resolve / Inspect.".to_owned()),
            running: false,
            listening: false,
            cancellable: false,
            selected_ip: None,
        };
        r
    }

    /// Asks for the domain to be resolved. The lookup that is returned is to be
    /// made.
    pub fn start_resolve(&mut self) -> (r: Option<ResolveJob>)
        ensures
            final(self)@ == after_resolve_request(old(self)@),
            opt_view(r) == resolve_job(old(self)@),
    {
        if self.running {
            return None;
        }
        let domain: String = trimmed(self.domain.as_str());
        if domain.as_str().is_empty() {
            self.status = Status::Text("Enter a domain first.".to_owned());
            return None;
        }
        self.results.clear();
        self.selected_ip = None;
        self.listening = true;
        self.cancellable = true;
        self.running = true;
        let workers: usize = if self.workers < 1 {
            1
        } else {
            self.workers
        };
        Some(ResolveJob { domain, timeout_ms: self.timeout_ms, workers })
    }

    /// The number of connection attempts of a scan that may be under way at once.
    pub fn scan_limit(&self) -> (r: usize)
        ensures
            r == (if self@.workers < 1 {
                1
            } else if self@.workers > MAX_PORT_CONCURRENCY {
                MAX_PORT_CONCURRENCY
            } else {
                self@.workers
            }),
    {
        if self.workers < 1 {
            1
        } else if self.workers > MAX_PORT_CONCURRENCY {
            MAX_PORT_CONCURRENCY
        } else {
            self.workers
        }
    }

    /// Asks for the ports of `ip` to be scanned. The scan that is returned is to
    /// be made.
    pub fn start_port_scan(&mut self, ip: IpAddr) -> (r: Option<ScanJob>)
        ensures
            final(self)@ == after_scan_request(old(self)@, ip),
            r == scan_job(old(self)@, ip),
    {
        if self.running {
            return None;
        }
        if let Some(mut result) = self.results.remove(&ip) {
            result.port_scan = Some(PortScanState::default());
            self.results.insert(result);
        }
        self.listening = true;
        self.cancellable = true;
        self.running = true;
        self.selected_ip = Some(ip);
        self.status = text_around("Starting fast TCP scan for ", ip, "...");
        assert(self@.results =~= after_scan_request(old(self)@, ip).results);
        Some(ScanJob { ip, timeout_ms: self.timeout_ms, limit: self.scan_limit() })
    }

    /// Asks for the worker to be stopped. Where `true` is returned there is one,
    /// and it is to be told.
    pub fn stop(&mut self) -> (r: bool)
        ensures
            final(self)@ == after_stop(old(self)@),
            r == old(self)@.cancellable,
    {
        let tell: bool = self.cancellable;
        self.running = false;
        self.cancellable = false;
        self.status = Status::Text("Stopped.".to_owned());
        tell
    }

    /// Asks for the results to be cleared.
    pub fn clear(&mut self)
        ensures
            final(self)@ == after_clear(old(self)@),
    {
        if self.running {
            return;
        }
        self.results.clear();
        self.selected_ip = None;
        self.status = Status::Text("Cleared.".to_owned());
    }

    /// Tells whether the counters of the scan that a report concerns have room for
    /// it.
    pub fn fits(&self, message: &WorkerMessage) -> (r: bool)
        ensures
            r == fits(self@, message@),
    {
        match message {
            WorkerMessage::PortChecked { ip, port: _, state } => match self.results.get(ip) {
                Some(result) => match &result.port_scan {
                    Some(scan) => scan.has_room(*state),
                    None => true,
                },
                None => true,
            },
            _ => true,
        }
    }

    fn add_unknown(&mut self, ips: &Vec<IpAddr>)
        ensures
            final(self)@ == (AppModel {
                results: with_unknown(old(self)@.results, ips@),
                ..old(self)@
            }),
    {
        let mut i: usize = 0;
        while i < ips.len()
            invariant
                i <= ips@.len(),
                self@ == (AppModel {
                    results: with_unknown(old(self)@.results, ips@.take(i as int)),
                    ..old(self)@
                }),
            decreases ips@.len() - i,
        {
            self.results.insert(IpResult::unknown(ips[i]));
            assert(ips@.take(i + 1).drop_last() =~= ips@.take(i as int));
            i = i + 1;
        }
        assert(ips@.take(i as int) =~= ips@);
    }

    fn check_port(&mut self, ip: IpAddr, port: u16, state: PortState, now: u64)
        requires
            fits(old(self)@, MessageModel::PortChecked { ip, port, state }),
        ensures
            final(self)@ == step(old(self)@, MessageModel::PortChecked { ip, port, state }, now),
    {
        if let Some(mut result) = self.results.remove(&ip) {
            if let Some(mut scan) = result.port_scan.take() {
                scan.record(port, state);
                self.status = match scan.elapsed(now) {
                    Some(elapsed) => Status::Scanning(
                        ScanProgress { ip, completed: scan.completed, total: scan.total, elapsed },
                    ),
                    None => count_status(ip, scan.completed, scan.total),
                };
                result.port_scan = Some(scan);
            }
            self.results.insert(result);
        }
        assert(self@.results =~= step(
            old(self)@,
            MessageModel::PortChecked { ip, port, state },
            now,
        ).results);
    }

    fn finish_scan(&mut self, ip: IpAddr)
        ensures
            final(self)@ == step(old(self)@, MessageModel::PortScanFinished { ip }, 0),
    {
        if let Some(mut result) = self.results.remove(&ip) {
            if let Some(mut scan) = result.port_scan.take() {
                scan.finish();
                result.port_scan = Some(scan);
            }
            self.results.insert(result);
        }
        self.status = text_around("Port scan finished for ", ip, ".");
        assert(self@.results =~= step(
            old(self)@,
            MessageModel::PortScanFinished { ip },
            0,
        ).results);
    }

    /// Takes up a report at `now`, and tells whether it is the last of the worker.
    pub fn process_message(&mut self, message: WorkerMessage, now: u64) -> (finished: bool)
        requires
            fits(old(self)@, message@),
        ensures
            final(self)@ == step(old(self)@, message@, now),
            finished == is_last(message@),
    {
        let ghost goal = step(old(self)@, message@, now);
        let mut finished: bool = false;
        match message {
            WorkerMessage::Status(text) => {
                self.status = Status::Text(text);
            },
            WorkerMessage::Resolved(ips) => {
                self.add_unknown(&ips);
            },
            WorkerMessage::PingResult { ip, ok, rtt_ms } => {
                if let Some(mut result) = self.results.remove(&ip) {
                    result.ping_ok = ok;
                    result.rtt_ms = rtt_ms;
                    self.results.insert(result);
                }
            },
            WorkerMessage::ReverseDns { ip, hostname } => {
                if let Some(mut result) = self.results.remove(&ip) {
                    result.reverse_dns = hostname;
                    self.results.insert(result);
                }
            },
            WorkerMessage::GeoResult { ip, info } => {
                if let Some(mut result) = self.results.remove(&ip) {
                    result.geo = info;
                    self.results.insert(result);
                }
            },
            WorkerMessage::PortScanStarted { ip, total } => {
                if let Some(mut result) = self.results.remove(&ip) {
                    result.port_scan = Some(PortScanState::started(total, now));
                    self.results.insert(result);
                }
                self.status = count_status(ip, 0, total);
            },
            WorkerMessage::PortChecked { ip, port, state } => {
                self.check_port(ip, port, state, now);
            },
            WorkerMessage::PortScanFinished { ip } => {
                self.finish_scan(ip);
            },
            WorkerMessage::Error(error) => {
                let mut text: String = "Error: ".to_owned();
                text.append(error.as_str());
                self.status = Status::Text(text);
                finished = true;
            },
            WorkerMessage::Finished => {
                finished = true;
            },
        }
        assert(self@.results =~= goal.results);
        finished
    }

    /// Ends the taking up of reports; `finished` tells that the last report of the
    /// worker was among them.
    pub fn end_batch(&mut self, finished: bool)
        ensures
            final(self)@ == after_batch(old(self)@, finished),
    {
        if finished {
            self.running = false;
            self.listening = false;
            self.cancellable = false;
        }
    }

    /// Takes up the reports at hand for as long as the counters have room, and
    /// tells whether they had room for all.
    #[verifier::spinoff_prover]
    #[verifier::rlimit(60)]
    pub fn take_up(&mut self, inbox: Vec<Delivery>) -> (all: bool)
        ensures
            all == (old(self)@.listening ==> all_fit(old(self)@, inbox_model(inbox@))),
            all ==> final(self)@ == after_messages(old(self)@, inbox_model(inbox@)),
            !all ==> exists|k: int| #[trigger]
                is_first_misfit(old(self)@, inbox_model(inbox@), k) && final(self)@
                    == after_reports(old(self)@, inbox_model(inbox@).take(k)),
    {
        if !self.listening {
            return true;
        }
        let mut finished: bool = false;
        let ghost given = inbox@;
        for delivery in it: inbox
            invariant
                it.seq() == given,
                old(self)@.listening,
                forall|i: int|
                    0 <= i < it.index() ==> fits(
                        after_reports(old(self)@, inbox_model(given).take(i)),
                        #[trigger] inbox_model(given)[i].0,
                    ),
                self@ == after_reports(old(self)@, inbox_model(given).take(it.index() as int)),
                finished == ends(inbox_model(given).take(it.index() as int)),
        {
            assert(inbox_model(given)[it.index() as int] == (delivery.message@, delivery.now));
            if !self.fits(&delivery.message) {
                assert(is_first_misfit(old(self)@, inbox_model(given), it.index() as int));
                return false;
            }
            proof {
                lemma_one_more(old(self)@, inbox_model(given), it.index() as int);
            }
            let last: bool = self.process_message(delivery.message, delivery.now);
            finished = finished || last;
        }
        assert(inbox_model(given).take(given.len() as int) =~= inbox_model(given));
        self.end_batch(finished);
        true
    }

    /// Takes up all the reports at hand.
    pub fn process_messages(&mut self, inbox: Vec<Delivery>)
        requires
            old(self)@.listening ==> all_fit(old(self)@, inbox_model(inbox@)),
        ensures
            final(self)@ == after_messages(old(self)@, inbox_model(inbox@)),
    {
        let _ = self.take_up(inbox);
    }
}

} // verus!
