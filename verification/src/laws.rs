//! What holds of the inspector as a whole.

use vstd::prelude::*;

use crate::addr::{ip_text, IpAddr};
use crate::display::{format_duration, ScanRate};
use crate::geo::{GeoInfo, GeoModel};
use crate::results::{opt_view, unknown_result, ResultModel};
use crate::scan::{
    after_check, after_checks, consistent_scan, ports_after, scan_records_every_verdict,
    scan_stays_consistent, scan_tries_every_port, started_scan, strictly_ascending, verdict, with_port,
    ConnectOutcome, PortState, ScanModel, MAX_PORT_CONCURRENCY, TOTAL_PORTS,
};
use crate::state::{
    after_batch, after_clear, after_messages, after_reports, after_resolve_request,
    after_scan_request, after_stop, all_fit, ends, fits, has_scan, inbox_model, initial, is_last,
    resolve_job, scan_job, status_text, step, with_unknown, App, AppModel, Delivery, MessageModel,
    ResolveJob, ScanJob, ScanProgress, Status, StatusModel, WorkerMessage, MAX_TIMEOUT_MS, MAX_WORKERS,
    MIN_TIMEOUT_MS, MIN_WORKERS,
};
use crate::text::{
    blank_iff_trim_empty, decimal, decimal_spells, is_blank, is_tight, margins_of, spells, trim,
};

verus! {

/// What holds of every state: exactly while a worker runs it can be told to
/// stop, and then its reports are taken up; each result is filed under its own
/// address; and the record of every scan is consistent.
pub open spec fn consistent(app: AppModel) -> bool {
    &&& app.running == app.cancellable
    &&& app.running ==> app.listening
    &&& forall|ip: IpAddr| #[trigger]
        app.results.dom().contains(ip) ==> consistent_result(ip, app.results[ip])
}

/// A result that is filed under its own address and whose scan is consistent.
pub open spec fn consistent_result(ip: IpAddr, result: ResultModel) -> bool {
    &&& result.ip == ip
    &&& result.port_scan matches Some(scan) ==> consistent_scan(scan)
}

/// The program starts in a consistent state.
pub proof fn start_is_consistent()
    ensures
        consistent(initial()),
{
}

/// Whatever the user asks for, the state stays consistent.
pub proof fn requests_keep_consistency(app: AppModel, ip: IpAddr)
    requires
        consistent(app),
    ensures
        consistent(after_resolve_request(app)),
        consistent(after_scan_request(app, ip)),
        consistent(after_stop(app)),
        consistent(after_clear(app)),
{
    assert(consistent_scan(crate::scan::idle_scan()));
}

proof fn lemma_unknown_results(results: Map<IpAddr, ResultModel>, ips: Seq<IpAddr>)
    ensures
        forall|ip: IpAddr| #[trigger]
            with_unknown(results, ips).dom().contains(ip) <==> (results.dom().contains(ip)
                || ips.contains(ip)),
        forall|ip: IpAddr| ips.contains(ip) ==> #[trigger] with_unknown(results, ips)[ip]
            == unknown_result(ip),
        forall|ip: IpAddr| !ips.contains(ip) ==> #[trigger] with_unknown(results, ips)[ip]
            == results[ip],
    decreases ips.len(),
{
    if ips.len() > 0 {
        let shorter = ips.drop_last();
        lemma_unknown_results(results, shorter);
        assert forall|ip: IpAddr| ips.contains(ip) <==> (shorter.contains(ip) || ip == ips.last()) by {
            if shorter.contains(ip) {
                let k = choose|k: int| 0 <= k < shorter.len() && shorter[k] == ip;
                assert(ips[k] == ip);
            }
            if ips.contains(ip) && ip != ips.last() {
                let k = choose|k: int| 0 <= k < ips.len() && ips[k] == ip;
                assert(shorter[k] == ip);
            }
            assert(ips[ips.len() - 1] == ips.last());
        }
        assert forall|ip: IpAddr| ips.contains(ip) implies #[trigger] with_unknown(results, ips)[ip]
            == unknown_result(ip) by {
            assert(shorter.contains(ip) || ip == ips.last());
        }
        assert forall|ip: IpAddr| !ips.contains(ip) implies #[trigger] with_unknown(results, ips)[ip]
            == results[ip] by {
            assert(!shorter.contains(ip) && ip != ips.last());
        }
        assert forall|ip: IpAddr| #[trigger]
            with_unknown(results, ips).dom().contains(ip) <==> (results.dom().contains(ip)
                || ips.contains(ip)) by {
            assert(with_unknown(results, shorter).dom().contains(ip) <==> (results.dom().contains(
                ip,
            ) || shorter.contains(ip)));
        }
    }
}

proof fn lemma_step_keeps_consistency(app: AppModel, message: MessageModel, now: u64)
    requires
        consistent(app),
    ensures
        consistent(step(app, message, now)),
        step(app, message, now).listening == app.listening,
        step(app, message, now).running == app.running,
{
    let after = step(app, message, now);
    match message {
        MessageModel::Resolved(ips) => {
            lemma_unknown_results(app.results, ips);
            assert forall|ip: IpAddr| #[trigger] after.results.dom().contains(ip) implies consistent_result(
                ip,
                after.results[ip],
            ) by {
                if ips.contains(ip) {
                    assert(after.results[ip] == unknown_result(ip));
                } else {
                    assert(after.results[ip] == app.results[ip]);
                }
            }
        },
        MessageModel::PortScanStarted { ip, total } => {
            assert(consistent_scan(started_scan(total as int, now)));
        },
        MessageModel::PortChecked { ip, port, state } => {
            if has_scan(app, ip) {
                assert(consistent_result(ip, app.results[ip]));
                scan_stays_consistent(app.results[ip].port_scan->0, port, state, 0, now);
            }
        },
        MessageModel::PortScanFinished { ip } => {
            if has_scan(app, ip) {
                assert(consistent_result(ip, app.results[ip]));
            }
        },
        _ => {},
    }
}

proof fn lemma_reports_keep_consistency(app: AppModel, inbox: Seq<(MessageModel, u64)>)
    requires
        consistent(app),
    ensures
        consistent(after_reports(app, inbox)),
    decreases inbox.len(),
{
    if inbox.len() > 0 {
        lemma_reports_keep_consistency(app, inbox.drop_last());
        let (message, now) = inbox.last();
        lemma_step_keeps_consistency(after_reports(app, inbox.drop_last()), message, now);
    }
}

/// Whatever the workers report, the state stays consistent.
pub proof fn reports_keep_consistency(app: AppModel, inbox: Seq<(MessageModel, u64)>)
    requires
        consistent(app),
    ensures
        consistent(after_messages(app, inbox)),
{
    lemma_reports_keep_consistency(app, inbox);
}

/// While a worker runs, a request to resolve, to scan or to clear changes
/// nothing and starts nothing.
pub proof fn running_worker_is_left_alone(app: AppModel, ip: IpAddr)
    requires
        app.running,
    ensures
        after_resolve_request(app) == app,
        resolve_job(app) is None,
        after_scan_request(app, ip) == app,
        scan_job(app, ip) is None,
        after_clear(app) == app,
{
}

/// A request starts a worker exactly when a worker runs after it and none ran
/// before.
pub proof fn a_job_is_a_running_worker(app: AppModel, ip: IpAddr)
    ensures
        resolve_job(app) is Some <==> !app.running && after_resolve_request(app).running,
        scan_job(app, ip) is Some <==> !app.running && after_scan_request(app, ip).running,
{
}

/// A scan follows the settings: each attempt to connect may take the timeout that
/// is set, and for every number of workers that can be set there are at most so
/// many attempts at once.
pub proof fn a_scan_follows_the_settings(app: AppModel, ip: IpAddr, job: ScanJob)
    requires
        scan_job(app, ip) == Some(job),
    ensures
        job.ip == ip,
        job.timeout_ms == app.timeout_ms,
        MIN_WORKERS <= app.workers <= MAX_WORKERS ==> job.limit == app.workers,
        1 <= job.limit <= MAX_PORT_CONCURRENCY,
{
}

/// Stopping lets the next job begin at once, and keeps the results.
pub proof fn stopping_makes_way(app: AppModel, ip: IpAddr)
    ensures
        after_stop(app).results == app.results,
        resolve_job(after_stop(app)) is Some <==> crate::text::trim(app.domain).len() > 0,
        scan_job(after_stop(app), ip) is Some,
        after_stop(after_stop(app)) == after_stop(app),
{
}

/// After the last report of a worker none runs, and nothing that arrives later
/// is taken up.
pub proof fn nothing_follows_the_last_report(
    app: AppModel,
    inbox: Seq<(MessageModel, u64)>,
    later: Seq<(MessageModel, u64)>,
)
    requires
        app.listening,
        ends(inbox),
    ensures
        ({
            let end = after_messages(app, inbox);
            &&& !end.running
            &&& !end.listening
            &&& !end.cancellable
            &&& after_messages(end, later) == end
        }),
{
}

proof fn lemma_reports_split(
    app: AppModel,
    first: Seq<(MessageModel, u64)>,
    second: Seq<(MessageModel, u64)>,
)
    ensures
        after_reports(app, first + second) == after_reports(after_reports(app, first), second),
    decreases second.len(),
{
    if second.len() == 0 {
        assert(first + second =~= first);
    } else {
        lemma_reports_split(app, first, second.drop_last());
        assert((first + second).drop_last() =~= first + second.drop_last());
        assert((first + second).last() == second.last());
    }
}

proof fn lemma_ends_split(first: Seq<(MessageModel, u64)>, second: Seq<(MessageModel, u64)>)
    ensures
        ends(first + second) == (ends(first) || ends(second)),
{
    let both = first + second;
    if ends(first) {
        let i = choose|i: int| 0 <= i < first.len() && is_last(#[trigger] first[i].0);
        assert(both[i] == first[i]);
    }
    if ends(second) {
        let i = choose|i: int| 0 <= i < second.len() && is_last(#[trigger] second[i].0);
        assert(both[first.len() + i] == second[i]);
    }
    if ends(both) {
        let i = choose|i: int| 0 <= i < both.len() && is_last(#[trigger] both[i].0);
        if i < first.len() {
            assert(first[i] == both[i]);
        } else {
            assert(second[i - first.len()] == both[i]);
        }
    }
}

proof fn lemma_reports_keep_flags(app: AppModel, inbox: Seq<(MessageModel, u64)>)
    ensures
        after_reports(app, inbox).listening == app.listening,
        after_reports(app, inbox).running == app.running,
        after_reports(app, inbox).cancellable == app.cancellable,
        after_reports(app, inbox).selected_ip == app.selected_ip,
        after_reports(app, inbox).domain == app.domain,
        after_reports(app, inbox).timeout_ms == app.timeout_ms,
        after_reports(app, inbox).workers == app.workers,
    decreases inbox.len(),
{
    if inbox.len() > 0 {
        lemma_reports_keep_flags(app, inbox.drop_last());
    }
}

/// It makes no difference how the reports before the last are divided over the
/// times at which they are taken up.
pub proof fn division_of_reports_is_immaterial(
    app: AppModel,
    first: Seq<(MessageModel, u64)>,
    second: Seq<(MessageModel, u64)>,
)
    requires
        !ends(first),
    ensures
        after_messages(app, first + second) == after_messages(after_messages(app, first), second),
{
    lemma_reports_split(app, first, second);
    lemma_ends_split(first, second);
    lemma_reports_keep_flags(app, first);
}

/// The reports of the workers never change what the user has entered.
pub proof fn reports_keep_the_settings(app: AppModel, inbox: Seq<(MessageModel, u64)>)
    ensures
        after_messages(app, inbox).domain == app.domain,
        after_messages(app, inbox).timeout_ms == app.timeout_ms,
        after_messages(app, inbox).workers == app.workers,
        after_messages(app, inbox).selected_ip == app.selected_ip,
{
    lemma_reports_keep_flags(app, inbox);
}

/// The addresses that a report is about.
pub open spec fn concerns(message: MessageModel, ip: IpAddr) -> bool {
    match message {
        MessageModel::Resolved(ips) => ips.contains(ip),
        MessageModel::PingResult { ip: about, .. } => about == ip,
        MessageModel::ReverseDns { ip: about, .. } => about == ip,
        MessageModel::GeoResult { ip: about, .. } => about == ip,
        MessageModel::PortScanStarted { ip: about, .. } => about == ip,
        MessageModel::PortChecked { ip: about, .. } => about == ip,
        MessageModel::PortScanFinished { ip: about } => about == ip,
        _ => false,
    }
}

/// A report changes nothing that is known of an address which it is not about.
pub proof fn reports_concern_their_own_address(
    app: AppModel,
    message: MessageModel,
    now: u64,
    ip: IpAddr,
)
    requires
        !concerns(message, ip),
    ensures
        step(app, message, now).results.dom().contains(ip) == app.results.dom().contains(ip),
        step(app, message, now).results[ip] == app.results[ip],
{
    if let MessageModel::Resolved(ips) = message {
        lemma_unknown_results(app.results, ips);
        assert(with_unknown(app.results, ips)[ip] == app.results[ip]);
    }
}

/// Only a lookup adds addresses, and exactly those that it found; no report
/// takes one away.
pub proof fn only_a_lookup_adds_addresses(app: AppModel, message: MessageModel, now: u64, ip: IpAddr)
    ensures
        step(app, message, now).results.dom().contains(ip) <==> (app.results.dom().contains(ip) || (
        message matches MessageModel::Resolved(ips) && ips.contains(ip))),
{
    if let MessageModel::Resolved(ips) = message {
        lemma_unknown_results(app.results, ips);
    }
}

/// After a lookup nothing is known yet of any address that it found.
pub proof fn a_lookup_starts_afresh(app: AppModel, ips: Seq<IpAddr>, now: u64, ip: IpAddr)
    requires
        ips.contains(ip),
    ensures
        step(app, MessageModel::Resolved(ips), now).results[ip] == unknown_result(ip),
{
    lemma_unknown_results(app.results, ips);
    assert(with_unknown(app.results, ips)[ip] == unknown_result(ip));
}

/// Once the results have been cleared for a lookup, its report shows exactly the
/// addresses that were found.
pub proof fn a_lookup_shows_what_it_found(
    app: AppModel,
    found: Seq<IpAddr>,
    ips: Seq<IpAddr>,
    now: u64,
)
    requires
        app.results == Map::<IpAddr, ResultModel>::empty(),
        ips.to_set() == found.to_set(),
    ensures
        step(app, MessageModel::Resolved(ips), now).results.dom() == found.to_set(),
{
    lemma_unknown_results(app.results, ips);
    let dom = step(app, MessageModel::Resolved(ips), now).results.dom();
    assert forall|ip: IpAddr| dom.contains(ip) <==> found.to_set().contains(ip) by {
        assert(ips.to_set().contains(ip) <==> ips.contains(ip));
    }
    assert(dom =~= found.to_set());
}

/// What a report says of the ping of `ip`; a lookup that found it says that
/// nothing is known.
pub open spec fn said_of_ping(message: MessageModel, ip: IpAddr) -> Option<(bool, Option<u128>)> {
    match message {
        MessageModel::PingResult { ip: about, ok, rtt_ms } => if about == ip {
            Some((ok, rtt_ms))
        } else {
            None
        },
        MessageModel::Resolved(ips) => if ips.contains(ip) {
            Some((false, None))
        } else {
            None
        },
        _ => None,
    }
}

/// What a report says of the host name of `ip`.
pub open spec fn said_of_name(message: MessageModel, ip: IpAddr) -> Option<Option<Seq<char>>> {
    match message {
        MessageModel::ReverseDns { ip: about, hostname } => if about == ip {
            Some(hostname)
        } else {
            None
        },
        MessageModel::Resolved(ips) => if ips.contains(ip) {
            Some(None)
        } else {
            None
        },
        _ => None,
    }
}

/// What a report says of the location of `ip`.
pub open spec fn said_of_location(message: MessageModel, ip: IpAddr) -> Option<Option<GeoModel>> {
    match message {
        MessageModel::GeoResult { ip: about, info } => if about == ip {
            Some(info)
        } else {
            None
        },
        MessageModel::Resolved(ips) => if ips.contains(ip) {
            Some(None)
        } else {
            None
        },
        _ => None,
    }
}

/// The last of the reports that says anything, by `said`.
pub open spec fn last_said<T>(
    inbox: Seq<(MessageModel, u64)>,
    said: spec_fn(MessageModel) -> Option<T>,
) -> Option<T>
    decreases inbox.len(),
{
    if inbox.len() == 0 {
        None
    } else {
        match said(inbox.last().0) {
            Some(content) => Some(content),
            None => last_said(inbox.drop_last(), said),
        }
    }
}

/// `said`, or what was known before where nothing was said.
pub open spec fn or_before<T>(said: Option<T>, before: T) -> T {
    match said {
        Some(content) => content,
        None => before,
    }
}

proof fn lemma_step_shows(app: AppModel, message: MessageModel, now: u64, ip: IpAddr)
    requires
        app.results.dom().contains(ip),
    ensures
        ({
            let before = app.results[ip];
            let after = step(app, message, now).results[ip];
            &&& step(app, message, now).results.dom().contains(ip)
            &&& (after.ping_ok, after.rtt_ms) == or_before(
                said_of_ping(message, ip),
                (before.ping_ok, before.rtt_ms),
            )
            &&& after.reverse_dns == or_before(said_of_name(message, ip), before.reverse_dns)
            &&& after.geo == or_before(said_of_location(message, ip), before.geo)
        }),
{
    if let MessageModel::Resolved(ips) = message {
        lemma_unknown_results(app.results, ips);
        if ips.contains(ip) {
            assert(with_unknown(app.results, ips)[ip] == unknown_result(ip));
        } else {
            assert(with_unknown(app.results, ips)[ip] == app.results[ip]);
        }
    }
}

/// In whatever order the reports come, each result shows the last that was said
/// of its address, and of that which nothing was said of what it showed before.
pub proof fn results_show_the_last_report(app: AppModel, inbox: Seq<(MessageModel, u64)>, ip: IpAddr)
    requires
        app.results.dom().contains(ip),
    ensures
        ({
            let before = app.results[ip];
            let after = after_reports(app, inbox).results[ip];
            &&& after_reports(app, inbox).results.dom().contains(ip)
            &&& (after.ping_ok, after.rtt_ms) == or_before(
                last_said(inbox, |m: MessageModel| said_of_ping(m, ip)),
                (before.ping_ok, before.rtt_ms),
            )
            &&& after.reverse_dns == or_before(
                last_said(inbox, |m: MessageModel| said_of_name(m, ip)),
                before.reverse_dns,
            )
            &&& after.geo == or_before(
                last_said(inbox, |m: MessageModel| said_of_location(m, ip)),
                before.geo,
            )
        }),
    decreases inbox.len(),
{
    if inbox.len() > 0 {
        results_show_the_last_report(app, inbox.drop_last(), ip);
        let (message, now) = inbox.last();
        lemma_step_shows(after_reports(app, inbox.drop_last()), message, now, ip);
    }
}

/// The reports of a scan on its verdicts.
pub open spec fn verdict_reports(ip: IpAddr, checks: Seq<(u16, PortState)>, times: Seq<u64>) -> Seq<
    (MessageModel, u64),
> {
    Seq::new(
        checks.len(),
        |i: int|
            (
                MessageModel::PortChecked { ip, port: checks[i].0, state: checks[i].1 },
                times[i],
            ),
    )
}

/// The reports of a scan from its start up to its verdicts.
pub open spec fn scan_reports(
    ip: IpAddr,
    total: usize,
    start: u64,
    checks: Seq<(u16, PortState)>,
    times: Seq<u64>,
) -> Seq<(MessageModel, u64)> {
    seq![(MessageModel::PortScanStarted { ip, total }, start)] + verdict_reports(ip, checks, times)
}

/// While a scan runs, the result for its address holds the record of exactly
/// the verdicts that were reported since its start.
pub proof fn scan_is_recorded(
    app: AppModel,
    ip: IpAddr,
    total: usize,
    start: u64,
    checks: Seq<(u16, PortState)>,
    times: Seq<u64>,
)
    requires
        app.results.dom().contains(ip),
        times.len() == checks.len(),
    ensures
        ({
            let end = after_reports(app, scan_reports(ip, total, start, checks, times));
            &&& end.results.dom() == app.results.dom()
            &&& end.results[ip] == (ResultModel {
                ip,
                port_scan: Some(after_checks(started_scan(total as int, start), checks)),
                ..app.results[ip]
            })
        }),
    decreases checks.len(),
{
    let inbox = scan_reports(ip, total, start, checks, times);
    if checks.len() == 0 {
        assert(inbox.drop_last() =~= Seq::<(MessageModel, u64)>::empty());
        assert(inbox.last() == (MessageModel::PortScanStarted { ip, total }, start));
        assert(after_reports(app, inbox.drop_last()) == app);
        assert(after_reports(app, inbox).results.dom() =~= app.results.dom());
    } else {
        let fewer = checks.drop_last();
        scan_is_recorded(app, ip, total, start, fewer, times.drop_last());
        assert(inbox.drop_last() =~= scan_reports(ip, total, start, fewer, times.drop_last()));
        let (port, state) = checks.last();
        assert(inbox.last() == (MessageModel::PortChecked { ip, port, state }, times.last()));
        assert(after_reports(app, inbox).results.dom() =~= app.results.dom());
    }
}

/// The counters never run out in a scan of at most as many ports as there are.
pub proof fn scan_reports_fit(
    app: AppModel,
    ip: IpAddr,
    total: usize,
    start: u64,
    checks: Seq<(u16, PortState)>,
    times: Seq<u64>,
)
    requires
        app.results.dom().contains(ip),
        times.len() == checks.len(),
        checks.len() <= TOTAL_PORTS,
    ensures
        all_fit(app, scan_reports(ip, total, start, checks, times)),
{
    let inbox = scan_reports(ip, total, start, checks, times);
    assert forall|i: int| 0 <= i < inbox.len() implies fits(
        after_reports(app, inbox.take(i)),
        #[trigger] inbox[i].0,
    ) by {
        if i > 0 {
            let done = checks.take(i - 1);
            assert(inbox.take(i) =~= scan_reports(ip, total, start, done, times.take(i - 1)));
            scan_is_recorded(app, ip, total, start, done, times.take(i - 1));
            scan_records_every_verdict(total as int, start, done);
            lemma_tally_is_bounded(done, PortState::Open);
            lemma_tally_is_bounded(done, PortState::Closed);
            lemma_tally_is_bounded(done, PortState::Filtered);
        }
    }
}

proof fn lemma_tally_is_bounded(checks: Seq<(u16, PortState)>, state: PortState)
    ensures
        0 <= crate::scan::tally(checks, state) <= checks.len(),
    decreases checks.len(),
{
    if checks.len() > 0 {
        lemma_tally_is_bounded(checks.drop_last(), state);
    }
}

/// A scan that has run its course leaves the record of its verdicts, marked as
/// ended, says so in the status line, and makes way for the next job.
pub proof fn a_whole_scan(
    app: AppModel,
    ip: IpAddr,
    start: u64,
    checks: Seq<(u16, PortState)>,
    times: Seq<u64>,
    end_times: (u64, u64),
)
    requires
        app.listening,
        app.results.dom().contains(ip),
        times.len() == checks.len(),
        checks.len() == TOTAL_PORTS,
    ensures
        ({
            let inbox = scan_reports(ip, TOTAL_PORTS, start, checks, times) + seq![
                (MessageModel::PortScanFinished { ip }, end_times.0),
                (MessageModel::Finished, end_times.1),
            ];
            let end = after_messages(app, inbox);
            &&& end.results[ip].port_scan == Some(
                ScanModel {
                    finished: true,
                    ..after_checks(started_scan(TOTAL_PORTS as int, start), checks)
                },
            )
            &&& end.status == StatusModel::Text("Port scan finished for "@ + ip_text(ip) + "."@)
            &&& !end.running
            &&& !end.listening
        }),
{
    let body = scan_reports(ip, TOTAL_PORTS, start, checks, times);
    let tail = seq![
        (MessageModel::PortScanFinished { ip }, end_times.0),
        (MessageModel::Finished, end_times.1),
    ];
    let inbox = body + tail;
    scan_is_recorded(app, ip, TOTAL_PORTS, start, checks, times);
    scan_records_every_verdict(TOTAL_PORTS as int, start, checks);
    lemma_reports_split(app, body, tail);
    lemma_reports_keep_flags(app, body);
    let mid = after_reports(app, body);
    assert(tail.drop_last() =~= seq![(MessageModel::PortScanFinished { ip }, end_times.0)]);
    assert(tail.drop_last().drop_last() =~= Seq::<(MessageModel, u64)>::empty());
    assert(after_reports(mid, tail.drop_last().drop_last()) == mid);
    assert(after_reports(mid, tail.drop_last()) == step(
        mid,
        MessageModel::PortScanFinished { ip },
        end_times.0,
    ));
    assert(after_reports(mid, tail) == step(
        after_reports(mid, tail.drop_last()),
        MessageModel::Finished,
        end_times.1,
    ));
    lemma_ends_split(body, tail);
    assert(is_last(tail[1].0));
}

/// The verdicts of a scan that tries its ports with the given outcomes, in
/// whatever order they come in.
pub open spec fn verdicts_of(
    checks: Seq<(u16, PortState)>,
    outcome: spec_fn(u16) -> ConnectOutcome,
) -> bool {
    &&& checks.len() == TOTAL_PORTS
    &&& forall|port: u16, state: PortState| #[trigger]
        checks.contains((port, state)) <==> (ports_after(0).contains(port) && state == verdict(
            outcome(port),
        ))
}

/// A scan that has run its course lists exactly the ports, out of all there are,
/// on which a connection was made, in ascending order and each once.
pub proof fn a_scan_finds_the_open_ports(
    app: AppModel,
    ip: IpAddr,
    start: u64,
    checks: Seq<(u16, PortState)>,
    times: Seq<u64>,
    end_times: (u64, u64),
    outcome: spec_fn(u16) -> ConnectOutcome,
)
    requires
        app.listening,
        app.results.dom().contains(ip),
        times.len() == checks.len(),
        verdicts_of(checks, outcome),
    ensures
        ({
            let inbox = scan_reports(ip, TOTAL_PORTS, start, checks, times) + seq![
                (MessageModel::PortScanFinished { ip }, end_times.0),
                (MessageModel::Finished, end_times.1),
            ];
            let scan = after_messages(app, inbox).results[ip].port_scan;
            &&& scan is Some
            &&& scan->0.finished
            &&& scan->0.completed == TOTAL_PORTS
            &&& strictly_ascending(scan->0.open_ports)
            &&& forall|port: u16| #[trigger]
                scan->0.open_ports.contains(port) <==> (1 <= port && outcome(
                    port,
                ) == ConnectOutcome::Connected)
        }),
{
    a_whole_scan(app, ip, start, checks, times, end_times);
    scan_records_every_verdict(TOTAL_PORTS as int, start, checks);
    scan_tries_every_port();
    let open_ports = after_checks(started_scan(TOTAL_PORTS as int, start), checks).open_ports;
    assert forall|port: u16| #[trigger] open_ports.contains(port) <==> (1 <= port && outcome(port)
        == ConnectOutcome::Connected) by {
        assert(open_ports.contains(port) <==> checks.contains((port, PortState::Open)));
        assert(ports_after(0).contains(port) <==> 1 <= port) by {
            if 1 <= port {
                assert(ports_after(0)[port - 1] == port);
            }
            if ports_after(0).contains(port) {
                let k = choose|k: int| 0 <= k < ports_after(0).len() && ports_after(0)[k] == port;
                assert(port == k + 1);
            }
        }
    }
}

/// The status line holds a text, and it is this one.
pub open spec fn says(status: Status, text: Seq<char>) -> bool {
    status is Text && status->Text_0@ == text
}

/// The settings of the user are the same.
pub open spec fn same_settings(a: App, b: App) -> bool {
    &&& a.domain@ == b.domain@
    &&& a.timeout_ms == b.timeout_ms
    &&& a.workers == b.workers
}

/// The two agree on whether a worker runs, is listened to, and can be told to
/// stop.
pub open spec fn same_worker(a: App, b: App) -> bool {
    &&& a.running == b.running
    &&& a.listening == b.listening
    &&& a.cancellable == b.cancellable
}

/// The two show the same results and have the same one selected.
pub open spec fn same_results(a: App, b: App) -> bool {
    &&& a.results@ == b.results@
    &&& a.selected_ip == b.selected_ip
}

/// At the start nothing is entered, found or selected, no worker runs, and both
/// settings have their usual values.
pub proof fn the_start_is_empty(app: App)
    requires
        call_ensures(App::new, (), app),
    ensures
        app.domain@.len() == 0,
        app.timeout_ms == 750,
        app.workers == 256,
        app.results@.dom() == Set::<IpAddr>::empty(),
        app.selected_ip is None,
        !app.running && !app.listening && !app.cancellable,
        says(app.status, "Enter a domain and press Resolve / Inspect."@),
{
    assert(app@ == initial());
}

/// A request to resolve starts a lookup exactly where no worker runs and the
/// domain is not blank. The lookup is for the domain that was entered, without the
/// white space around it, and follows the settings.
pub proof fn a_lookup_is_for_the_domain_entered(app: &mut App, r: Option<ResolveJob>)
    requires
        call_ensures(App::start_resolve, (app,), r),
    ensures
        r is Some <==> !old(app).running && !is_blank(old(app).domain@),
        r matches Some(job) ==> {
            &&& job.domain@.len() > 0
            &&& is_tight(job.domain@)
            &&& exists|front: Seq<char>, back: Seq<char>|
                {
                    &&& #[trigger] is_blank(front)
                    &&& #[trigger] is_blank(back)
                    &&& old(app).domain@ == front + job.domain@ + back
                }
            &&& job.timeout_ms == old(app).timeout_ms
            &&& old(app).workers >= 1 ==> job.workers == old(app).workers
            &&& old(app).workers == 0 ==> job.workers == 1
        },
{
    blank_iff_trim_empty(old(app).domain@);
    let (front, back) = margins_of(old(app).domain@);
    assert(is_blank(front) && is_blank(back));
    if let Some(job) = r {
        assert(opt_view(r) == Some(job@));
        assert(job.domain@ == trim(old(app).domain@));
    }
}

/// A request to resolve that starts a lookup leaves no result from before and no
/// selection, and keeps the settings; one that starts none changes at most the
/// status line, and that only to ask for a domain.
pub proof fn a_lookup_begins_with_nothing(app: &mut App, r: Option<ResolveJob>)
    requires
        call_ensures(App::start_resolve, (app,), r),
    ensures
        same_settings(*final(app), *old(app)),
        r is Some ==> {
            &&& final(app).results@.dom() == Set::<IpAddr>::empty()
            &&& final(app).selected_ip is None
            &&& final(app).running && final(app).listening && final(app).cancellable
            &&& final(app).status@ == old(app).status@
        },
        r is None ==> same_results(*final(app), *old(app)) && same_worker(*final(app), *old(app)),
        r is None && old(app).running ==> final(app).status@ == old(app).status@,
        r is None && !old(app).running ==> says(final(app).status, "Enter a domain first."@),
{
    assert(final(app)@ == after_resolve_request(old(app)@));
    assert(opt_view(r) == resolve_job(old(app)@));
}

/// The addresses that are known after a series of reports are those that were
/// known before it and those that a lookup among the reports found.
pub proof fn known_addresses_were_found(app: AppModel, inbox: Seq<(MessageModel, u64)>, ip: IpAddr)
    ensures
        after_reports(app, inbox).results.dom().contains(ip) <==> (app.results.dom().contains(ip)
            || exists|i: int|
            0 <= i < inbox.len() && found_in(#[trigger] inbox[i].0, ip)),
    decreases inbox.len(),
{
    if inbox.len() > 0 {
        let fewer = inbox.drop_last();
        let (message, now) = inbox.last();
        known_addresses_were_found(app, fewer, ip);
        only_a_lookup_adds_addresses(after_reports(app, fewer), message, now, ip);
        if exists|i: int| 0 <= i < fewer.len() && found_in(#[trigger] fewer[i].0, ip) {
            let i = choose|i: int| 0 <= i < fewer.len() && found_in(#[trigger] fewer[i].0, ip);
            assert(found_in(inbox[i].0, ip));
        }
        if exists|i: int| 0 <= i < inbox.len() && found_in(#[trigger] inbox[i].0, ip) {
            let i = choose|i: int| 0 <= i < inbox.len() && found_in(#[trigger] inbox[i].0, ip);
            if i < fewer.len() {
                assert(found_in(fewer[i].0, ip));
            } else {
                assert(inbox[i] == inbox.last());
            }
        }
        if found_in(message, ip) {
            assert(found_in(inbox[inbox.len() - 1].0, ip));
        }
    }
}

/// The report is that of a lookup which found `ip`.
pub open spec fn found_in(message: MessageModel, ip: IpAddr) -> bool {
    message is Resolved && message->Resolved_0.contains(ip)
}

/// Whatever was shown before, once a lookup that was asked for has reported, the
/// addresses that are shown are exactly those that it found.
pub proof fn a_lookup_shows_nothing_but_what_it_found(
    app: AppModel,
    inbox: Seq<(MessageModel, u64)>,
    ips: Seq<IpAddr>,
    at: int,
)
    requires
        resolve_job(app) is Some,
        0 <= at < inbox.len(),
        inbox[at].0 == MessageModel::Resolved(ips),
        forall|i: int| 0 <= i < inbox.len() && i != at ==> !((#[trigger] inbox[i]).0 is Resolved),
    ensures
        after_messages(after_resolve_request(app), inbox).results.dom() == ips.to_set(),
        after_messages(after_resolve_request(app), inbox).selected_ip is None,
{
    let begun = after_resolve_request(app);
    let end = after_messages(begun, inbox);
    lemma_reports_keep_flags(begun, inbox);
    assert(end.results == after_reports(begun, inbox).results);
    assert forall|ip: IpAddr| end.results.dom().contains(ip) <==> ips.to_set().contains(ip) by {
        known_addresses_were_found(begun, inbox, ip);
        assert(ips.to_set().contains(ip) <==> ips.contains(ip));
        if ips.contains(ip) {
            assert(found_in(inbox[at].0, ip));
        }
    }
    assert(end.results.dom() =~= ips.to_set());
}

/// No more connection attempts are under way at once than there are workers set,
/// and never none, nor more than 1024.
pub proof fn attempts_are_limited_by_the_workers(app: &App, r: usize)
    requires
        call_ensures(App::scan_limit, (app,), r),
    ensures
        1 <= r <= 1024,
        1 <= app.workers <= 1024 ==> r == app.workers,
        app.workers == 0 ==> r == 1,
        app.workers > 1024 ==> r == 1024,
{
}

/// A request to scan starts a scan exactly where no worker runs: of the address
/// that was asked for, with the timeout and the limit that are set.
pub proof fn a_scan_is_of_the_address_asked_for(
    app: &mut App,
    ip: IpAddr,
    r: Option<ScanJob>,
    limit: usize,
)
    requires
        call_ensures(App::start_port_scan, (app, ip), r),
        call_ensures(App::scan_limit, (&*old(app),), limit),
    ensures
        r is Some <==> !old(app).running,
        r matches Some(job) ==> {
            &&& job.ip == ip
            &&& job.timeout_ms == old(app).timeout_ms
            &&& job.limit == limit
        },
        same_settings(*final(app), *old(app)),
        r is None ==> {
            &&& same_results(*final(app), *old(app))
            &&& same_worker(*final(app), *old(app))
            &&& final(app).status@ == old(app).status@
        },
        r is Some ==> {
            &&& final(app).running && final(app).listening && final(app).cancellable
            &&& final(app).selected_ip == Some(ip)
            &&& says(final(app).status, "Starting fast TCP scan for "@ + ip_text(ip) + "..."@)
            &&& final(app).results@.dom() == old(app).results@.dom()
        },
{
    assert(final(app)@ == after_scan_request(old(app)@, ip));
    assert(final(app).results@.dom() =~= old(app).results@.dom());
}

/// A scan that is asked for begins with an empty record, in place of any that was
/// kept for its address; nothing else that is known changes.
pub proof fn a_scan_begins_with_an_empty_record(
    app: &mut App,
    ip: IpAddr,
    r: Option<ScanJob>,
    other: IpAddr,
)
    requires
        call_ensures(App::start_port_scan, (app, ip), r),
        r is Some,
        old(app).results@.dom().contains(other),
    ensures
        ({
            let before = old(app).results@[other];
            let after = final(app).results@[other];
            &&& after.ip == before.ip
            &&& after.ping_ok == before.ping_ok
            &&& after.rtt_ms == before.rtt_ms
            &&& after.reverse_dns == before.reverse_dns
            &&& after.geo == before.geo
            &&& other != ip ==> after.port_scan == before.port_scan
            &&& other == ip ==> {
                &&& after.port_scan is Some
                &&& is_empty_record(after.port_scan->0, 65535, None)
            }
        }),
{
    assert(final(app)@ == after_scan_request(old(app)@, ip));
}

/// A record of `total` ports in which nothing has been counted or listed and which
/// has not ended.
pub open spec fn is_empty_record(scan: ScanModel, total: int, started_at: Option<u64>) -> bool {
    &&& scan.total == total
    &&& scan.started_at == started_at
    &&& scan.completed == 0
    &&& scan.open == 0
    &&& scan.closed == 0
    &&& scan.filtered == 0
    &&& scan.open_ports.len() == 0
    &&& !scan.finished
}

/// Stopping keeps what is known and what is set; the worker is to be told exactly
/// where there was one, and is then no longer counted as running.
pub proof fn stopping_keeps_what_is_known(app: &mut App, tell: bool)
    requires
        call_ensures(App::stop, (app,), tell),
    ensures
        tell == old(app).cancellable,
        !final(app).running && !final(app).cancellable,
        final(app).listening == old(app).listening,
        says(final(app).status, "Stopped."@),
        same_results(*final(app), *old(app)),
        same_settings(*final(app), *old(app)),
{
    assert(final(app)@ == after_stop(old(app)@));
}

/// Clearing takes away every result and the selection, unless a worker runs; the
/// settings stay.
pub proof fn clearing_takes_every_result(app: &mut App)
    requires
        call_ensures(App::clear, (app,), ()),
    ensures
        same_settings(*final(app), *old(app)),
        same_worker(*final(app), *old(app)),
        old(app).running ==> same_results(*final(app), *old(app)) && final(app).status@
            == old(app).status@,
        !old(app).running ==> {
            &&& final(app).results@.dom() == Set::<IpAddr>::empty()
            &&& final(app).selected_ip is None
            &&& says(final(app).status, "Cleared."@)
        },
{
    assert(final(app)@ == after_clear(old(app)@));
}

/// A report leaves the settings, the selection and the worker as they are; it is
/// the last exactly where it says that the work is done or has failed.
pub proof fn a_report_changes_what_is_known_alone(
    app: &mut App,
    message: WorkerMessage,
    now: u64,
    finished: bool,
)
    requires
        call_ensures(App::process_message, (app, message, now), finished),
    ensures
        same_settings(*final(app), *old(app)),
        same_worker(*final(app), *old(app)),
        final(app).selected_ip == old(app).selected_ip,
        finished <==> message is Finished || message is Error,
{
    assert(final(app)@ == step(old(app)@, message@, now));
}

/// What a report makes the status line say: its own text where it is a status,
/// that text as an error where it is one, how far a scan has come where a scan
/// starts, that it is over where it ends; any other report but a verdict leaves it
/// as it was.
pub proof fn what_a_report_makes_the_status_say(
    app: &mut App,
    message: WorkerMessage,
    now: u64,
    finished: bool,
)
    requires
        call_ensures(App::process_message, (app, message, now), finished),
    ensures
        match message {
            WorkerMessage::Status(text) => says(final(app).status, text@),
            WorkerMessage::Error(text) => says(final(app).status, "Error: "@ + text@),
            WorkerMessage::PortScanStarted { ip, total } => exists|all: Seq<char>| #[trigger]
                spells(all, total as int) && says(
                    final(app).status,
                    "Scanning "@ + ip_text(ip) + ": "@ + "0"@ + " / "@ + all,
                ),
            WorkerMessage::PortScanFinished { ip } => says(
                final(app).status,
                "Port scan finished for "@ + ip_text(ip) + "."@,
            ),
            WorkerMessage::PortChecked { ip, port, state } => {
                !(old(app).results@.dom().contains(ip) && old(app).results@[ip].port_scan is Some)
                    ==> final(app).status@ == old(app).status@
            },
            _ => final(app).status@ == old(app).status@,
        },
{
    assert(final(app)@ == step(old(app)@, message@, now));
    if let WorkerMessage::PortScanStarted { ip, total } = message {
        decimal_spells(total as nat);
        reveal_strlit("0");
        assert(decimal(0) =~= "0"@);
    }
}

/// A status, the end of the work and an error change no result.
pub proof fn words_change_no_result(app: &mut App, message: WorkerMessage, now: u64, finished: bool)
    requires
        call_ensures(App::process_message, (app, message, now), finished),
        message is Status || message is Finished || message is Error,
    ensures
        final(app).results@ == old(app).results@,
{
    assert(final(app)@ == step(old(app)@, message@, now));
}

/// A verdict on a port of a scan that is kept shows how far the scan has come by
/// then, and since when where time has passed.
pub proof fn a_verdict_shows_how_far_the_scan_is(
    app: &mut App,
    ip: IpAddr,
    port: u16,
    state: PortState,
    now: u64,
    finished: bool,
)
    requires
        call_ensures(
            App::process_message,
            (app, WorkerMessage::PortChecked { ip, port, state }, now),
            finished,
        ),
        old(app).results@.dom().contains(ip),
        old(app).results@[ip].port_scan is Some,
        0 <= old(app).results@[ip].port_scan->0.completed < usize::MAX,
        0 <= old(app).results@[ip].port_scan->0.total <= usize::MAX,
    ensures
        ({
            let before = old(app).results@[ip].port_scan->0;
            let timed = before.started_at is Some && before.started_at->0 < now;
            &&& timed ==> {
                let progress = final(app).status->Scanning_0;
                &&& final(app).status is Scanning
                &&& progress.ip == ip
                &&& progress.completed == before.completed + 1
                &&& progress.total == before.total
                &&& before.started_at->0 + progress.elapsed == now
            }
            &&& !timed ==> exists|done: Seq<char>, all: Seq<char>|
                {
                    &&& #[trigger] spells(done, before.completed + 1)
                    &&& #[trigger] spells(all, before.total)
                    &&& says(
                        final(app).status,
                        "Scanning "@ + ip_text(ip) + ": "@ + done + " / "@ + all,
                    )
                }
        }),
{
    let before = old(app)@.results[ip].port_scan->0;
    let message = WorkerMessage::PortChecked { ip, port, state };
    assert(final(app)@ == step(old(app)@, message@, now));
    let after = after_check(before, port, state);
    assert(after.completed == before.completed + 1 && after.total == before.total);
    assert(final(app)@.status == crate::state::progress_status(ip, after, now));
    decimal_spells((before.completed + 1) as nat);
    decimal_spells(before.total as nat);
}

/// The outcome of a ping is told of the address that was pinged, where that is
/// known; all else that is known stays.
pub proof fn a_ping_is_told_of_its_address(
    app: &mut App,
    about: IpAddr,
    ok: bool,
    rtt_ms: Option<u128>,
    now: u64,
    finished: bool,
    ip: IpAddr,
)
    requires
        call_ensures(
            App::process_message,
            (app, WorkerMessage::PingResult { ip: about, ok, rtt_ms }, now),
            finished,
        ),
        old(app).results@.dom().contains(ip),
    ensures
        ({
            let before = old(app).results@[ip];
            let after = final(app).results@[ip];
            &&& final(app).results@.dom().contains(ip)
            &&& after.ip == if about == ip {
                ip
            } else {
                before.ip
            }
            &&& about == ip ==> after.ping_ok == ok && after.rtt_ms == rtt_ms
            &&& about != ip ==> after.ping_ok == before.ping_ok && after.rtt_ms == before.rtt_ms
            &&& after.reverse_dns == before.reverse_dns
            &&& after.geo == before.geo
            &&& after.port_scan == before.port_scan
        }),
{
    let message = WorkerMessage::PingResult { ip: about, ok, rtt_ms };
    assert(final(app)@ == step(old(app)@, message@, now));
}

/// A host name, or that there is none, is told of the address that it was looked
/// up for, where that is known; all else that is known stays.
pub proof fn a_name_is_told_of_its_address(
    app: &mut App,
    about: IpAddr,
    hostname: Option<String>,
    now: u64,
    finished: bool,
    ip: IpAddr,
)
    requires
        call_ensures(
            App::process_message,
            (app, WorkerMessage::ReverseDns { ip: about, hostname }, now),
            finished,
        ),
        old(app).results@.dom().contains(ip),
    ensures
        ({
            let before = old(app).results@[ip];
            let after = final(app).results@[ip];
            &&& final(app).results@.dom().contains(ip)
            &&& after.ip == if about == ip {
                ip
            } else {
                before.ip
            }
            &&& about == ip ==> after.reverse_dns == opt_view(hostname)
            &&& about != ip ==> after.reverse_dns == before.reverse_dns
            &&& after.ping_ok == before.ping_ok && after.rtt_ms == before.rtt_ms
            &&& after.geo == before.geo
            &&& after.port_scan == before.port_scan
        }),
{
    let message = WorkerMessage::ReverseDns { ip: about, hostname };
    assert(final(app)@ == step(old(app)@, message@, now));
}

/// A location, or that there is none, is told of the address that was located,
/// where that is known; all else that is known stays.
pub proof fn a_location_is_told_of_its_address(
    app: &mut App,
    about: IpAddr,
    info: Option<GeoInfo>,
    now: u64,
    finished: bool,
    ip: IpAddr,
)
    requires
        call_ensures(
            App::process_message,
            (app, WorkerMessage::GeoResult { ip: about, info }, now),
            finished,
        ),
        old(app).results@.dom().contains(ip),
    ensures
        ({
            let before = old(app).results@[ip];
            let after = final(app).results@[ip];
            &&& final(app).results@.dom().contains(ip)
            &&& after.ip == if about == ip {
                ip
            } else {
                before.ip
            }
            &&& about == ip ==> after.geo == opt_view(info)
            &&& about != ip ==> after.geo == before.geo
            &&& after.ping_ok == before.ping_ok && after.rtt_ms == before.rtt_ms
            &&& after.reverse_dns == before.reverse_dns
            &&& after.port_scan == before.port_scan
        }),
{
    let message = WorkerMessage::GeoResult { ip: about, info };
    assert(final(app)@ == step(old(app)@, message@, now));
}

/// The report that a scan starts puts an empty record in the place of the one that
/// is kept for its address, and the report that it ends marks that record as ended
/// with all its ports tried; neither changes anything else that is known.
pub proof fn a_scan_is_kept_from_start_to_end(
    app: &mut App,
    message: WorkerMessage,
    now: u64,
    finished: bool,
    ip: IpAddr,
)
    requires
        call_ensures(App::process_message, (app, message, now), finished),
        old(app).results@.dom().contains(ip),
        message is PortScanStarted || message is PortScanFinished,
    ensures
        ({
            let before = old(app).results@[ip];
            let after = final(app).results@[ip];
            &&& final(app).results@.dom().contains(ip)
            &&& after.ping_ok == before.ping_ok
            &&& after.rtt_ms == before.rtt_ms
            &&& after.reverse_dns == before.reverse_dns
            &&& after.geo == before.geo
            &&& message matches WorkerMessage::PortScanStarted { ip: about, total } ==> {
                &&& about != ip ==> after.port_scan == before.port_scan
                &&& about == ip ==> after.port_scan is Some && is_empty_record(
                    after.port_scan->0,
                    total as int,
                    Some(now),
                )
            }
            &&& message matches WorkerMessage::PortScanFinished { ip: about } ==> {
                &&& about != ip || before.port_scan is None ==> after.port_scan == before.port_scan
                &&& about == ip && before.port_scan is Some ==> {
                    let scan = before.port_scan->0;
                    &&& after.port_scan is Some
                    &&& after.port_scan->0.finished
                    &&& after.port_scan->0.completed == scan.total
                    &&& after.port_scan->0.total == scan.total
                    &&& after.port_scan->0.open == scan.open
                    &&& after.port_scan->0.closed == scan.closed
                    &&& after.port_scan->0.filtered == scan.filtered
                    &&& after.port_scan->0.open_ports == scan.open_ports
                    &&& after.port_scan->0.started_at == scan.started_at
                }
            }
        }),
{
    assert(final(app)@ == step(old(app)@, message@, now));
}

/// A verdict is entered in the record of the scan of its address, once in all and
/// once for its kind; it changes nothing else that is known, and nothing at all
/// where no scan is kept for the address.
pub proof fn a_verdict_is_entered_in_its_scan(
    app: &mut App,
    about: IpAddr,
    port: u16,
    state: PortState,
    now: u64,
    finished: bool,
    ip: IpAddr,
)
    requires
        call_ensures(
            App::process_message,
            (app, WorkerMessage::PortChecked { ip: about, port, state }, now),
            finished,
        ),
        old(app).results@.dom().contains(ip),
    ensures
        ({
            let before = old(app).results@[ip];
            let after = final(app).results@[ip];
            &&& final(app).results@.dom().contains(ip)
            &&& after.ping_ok == before.ping_ok
            &&& after.rtt_ms == before.rtt_ms
            &&& after.reverse_dns == before.reverse_dns
            &&& after.geo == before.geo
            &&& after.port_scan is Some <==> before.port_scan is Some
            &&& about != ip ==> after.port_scan == before.port_scan
            &&& about == ip && before.port_scan is Some ==> {
                let scan = before.port_scan->0;
                let entered = after.port_scan->0;
                &&& entered.completed == scan.completed + 1
                &&& entered.open == scan.open + if state is Open {
                    1int
                } else {
                    0
                }
                &&& entered.closed == scan.closed + if state is Closed {
                    1int
                } else {
                    0
                }
                &&& entered.filtered == scan.filtered + if state is Filtered {
                    1int
                } else {
                    0
                }
                &&& state is Open ==> entered.open_ports == with_port(scan.open_ports, port)
                &&& !(state is Open) ==> entered.open_ports == scan.open_ports
                &&& entered.total == scan.total
                &&& entered.started_at == scan.started_at
                &&& entered.finished == scan.finished
            }
        }),
{
    let message = WorkerMessage::PortChecked { ip: about, port, state };
    assert(final(app)@ == step(old(app)@, message@, now));
}

/// Nothing but a lookup changes which addresses are known, and of those that a
/// lookup found nothing is known yet; the others stay as they were.
pub proof fn a_lookup_adds_what_it_found(
    app: &mut App,
    message: WorkerMessage,
    now: u64,
    finished: bool,
    ip: IpAddr,
)
    requires
        call_ensures(App::process_message, (app, message, now), finished),
    ensures
        !(message is Resolved) ==> final(app).results@.dom().contains(ip)
            == old(app).results@.dom().contains(ip),
        message matches WorkerMessage::Resolved(ips) ==> {
            let after = final(app).results@[ip];
            &&& final(app).results@.dom().contains(ip) <==> old(app).results@.dom().contains(ip)
                || ips@.contains(ip)
            &&& ips@.contains(ip) ==> {
                &&& after.ip == ip
                &&& !after.ping_ok
                &&& after.rtt_ms is None
                &&& after.reverse_dns is None
                &&& after.geo is None
                &&& after.port_scan is None
            }
            &&& !ips@.contains(ip) ==> after == old(app).results@[ip]
        },
{
    assert(final(app)@ == step(old(app)@, message@, now));
    only_a_lookup_adds_addresses(old(app)@, message@, now, ip);
    if let WorkerMessage::Resolved(ips) = message {
        if ips@.contains(ip) {
            a_lookup_starts_afresh(old(app)@, ips@, now, ip);
        } else {
            reports_concern_their_own_address(old(app)@, message@, now, ip);
        }
    }
}

/// A report is refused exactly where it is a verdict on a port of a scan that is
/// kept and one of the two counters that it adds to has come to its end.
pub proof fn only_full_counters_refuse_a_report(app: &App, message: &WorkerMessage, r: bool)
    requires
        call_ensures(App::fits, (app, message), r),
    ensures
        !(*message is PortChecked) ==> r,
        *message matches WorkerMessage::PortChecked { ip, port, state } ==> {
            let scan = app.results@[ip].port_scan->0;
            !r <==> {
                &&& app.results@.dom().contains(ip)
                &&& app.results@[ip].port_scan is Some
                &&& {
                    ||| scan.completed >= usize::MAX
                    ||| state is Open && scan.open >= usize::MAX
                    ||| state is Closed && scan.closed >= usize::MAX
                    ||| state is Filtered && scan.filtered >= usize::MAX
                }
            }
        },
{
    assert(r == fits(app@, message@));
}

/// The end of a series of reports dismisses the worker exactly where its last
/// report was among them, and changes nothing else.
pub proof fn the_last_report_dismisses_the_worker(app: &mut App, finished: bool)
    requires
        call_ensures(App::end_batch, (app, finished), ()),
    ensures
        same_settings(*final(app), *old(app)),
        same_results(*final(app), *old(app)),
        final(app).status@ == old(app).status@,
        finished ==> !final(app).running && !final(app).listening && !final(app).cancellable,
        !finished ==> same_worker(*final(app), *old(app)),
{
    assert(final(app)@ == after_batch(old(app)@, finished));
}

/// Reports are taken up one by one, in the order in which they came.
pub proof fn reports_are_taken_up_in_order(
    app: AppModel,
    inbox: Seq<(MessageModel, u64)>,
    message: MessageModel,
    now: u64,
)
    ensures
        after_reports(app, Seq::empty()) == app,
        after_reports(app, inbox.push((message, now))) == step(
            after_reports(app, inbox),
            message,
            now,
        ),
        after_reports(app, seq![(message, now)] + inbox) == after_reports(
            step(app, message, now),
            inbox,
        ),
{
    assert(inbox.push((message, now)).drop_last() =~= inbox);
    let one = seq![(message, now)];
    assert(one.drop_last() =~= Seq::<(MessageModel, u64)>::empty());
    assert(after_reports(app, one) == step(app, message, now));
    lemma_reports_split(app, one, inbox);
}

/// A series of reports is taken up whole where a worker is listened to, and the
/// worker is dismissed where one of them says that the work is done or has failed;
/// where none is listened to nothing changes.
pub proof fn a_series_is_taken_up_whole(app: AppModel, inbox: Seq<(MessageModel, u64)>, i: int)
    ensures
        !app.listening ==> after_messages(app, inbox) == app,
        app.listening ==> {
            let end = after_messages(app, inbox);
            let taken_up = after_reports(app, inbox);
            &&& end.results == taken_up.results
            &&& end.status == taken_up.status
            &&& 0 <= i < inbox.len() && (inbox[i].0 is Finished || inbox[i].0 is Error) ==> {
                !end.running && !end.listening && !end.cancellable
            }
            &&& (forall|k: int|
                0 <= k < inbox.len() ==> !((#[trigger] inbox[k]).0 is Finished || inbox[k].0 is Error))
                ==> end.running == app.running && end.listening && end.cancellable
                == app.cancellable
        },
{
    lemma_reports_keep_flags(app, inbox);
    if 0 <= i < inbox.len() && (inbox[i].0 is Finished || inbox[i].0 is Error) {
        assert(is_last(inbox[i].0));
    }
}

/// The reports at hand are taken up as they came. Where none is refused all are
/// taken up; else those before one that is.
pub proof fn reports_are_all_taken_up(app: &mut App, inbox: Vec<Delivery>, all: bool)
    requires
        call_ensures(App::take_up, (app, inbox), all),
    ensures
        inbox_model(inbox@).len() == inbox@.len(),
        forall|i: int|
            0 <= i < inbox@.len() ==> #[trigger] inbox_model(inbox@)[i] == (
                inbox@[i].message@,
                inbox@[i].now,
            ),
        !old(app).listening ==> all && final(app)@ == old(app)@,
        all ==> final(app)@ == after_messages(old(app)@, inbox_model(inbox@)),
        !all ==> exists|k: int|
            {
                &&& 0 <= k < inbox@.len()
                &&& inbox@[k].message is PortChecked
                &&& final(app)@ == after_reports(old(app)@, #[trigger] inbox_model(inbox@).take(k))
            },
{
    if !all {
        let given = inbox_model(inbox@);
        let k = choose|k: int| #[trigger]
            crate::state::is_first_misfit(old(app)@, given, k) && final(app)@ == after_reports(
                old(app)@,
                given.take(k),
            );
        assert(given[k].0 == inbox@[k].message@);
        assert(!fits(after_reports(old(app)@, given.take(k)), given[k].0));
    }
}

/// The status line gives its own text. While a scan is under way it names the
/// address, how many ports were tried of how many, the speed, and the time left.
pub proof fn the_status_line_tells_how_far_a_scan_is(
    status: &Status,
    rate: ScanRate,
    r: String,
    eta: String,
)
    requires
        call_ensures(Status::text, (status, rate), r),
        call_ensures(format_duration, (rate.eta,), eta),
    ensures
        *status matches Status::Text(text) ==> r@ == text@,
        *status matches Status::Scanning(progress) ==> exists|
            done: Seq<char>,
            all: Seq<char>,
            speed: Seq<char>,
        |
            {
                &&& #[trigger] spells(done, progress.completed as int)
                &&& #[trigger] spells(all, progress.total as int)
                &&& #[trigger] spells(speed, rate.ports_per_second as int)
                &&& r@ == "Scanning "@ + ip_text(progress.ip) + ": "@ + done + " / "@ + all
                    + "  •  "@ + speed + " ports/s  •  ETA "@ + eta@
            },
{
    assert(r@ == status_text(status@, rate));
    if let Status::Scanning(progress) = *status {
        decimal_spells(progress.completed as nat);
        decimal_spells(progress.total as nat);
        decimal_spells(rate.ports_per_second as nat);
    }
}

/// What a scan has tried and what it has still to try make up the whole, unless
/// more was tried than there was.
pub proof fn progress_and_remainder_make_the_whole(progress: &ScanProgress, r: usize)
    requires
        call_ensures(ScanProgress::remaining, (progress,), r),
    ensures
        progress.completed <= progress.total ==> progress.completed + r == progress.total,
        progress.total <= progress.completed ==> r == 0,
{
}

/// Taking up all the reports at hand is taking up each as it came.
pub proof fn reports_at_hand_are_processed(app: &mut App, inbox: Vec<Delivery>)
    requires
        call_ensures(App::process_messages, (app, inbox), ()),
    ensures
        final(app)@ == after_messages(
            old(app)@,
            Seq::new(inbox@.len(), |i: int| (inbox@[i].message@, inbox@[i].now)),
        ),
{
    assert(inbox_model(inbox@) =~= Seq::new(
        inbox@.len(),
        |i: int| (inbox@[i].message@, inbox@[i].now),
    ));
}

/// The settings at the start lie between the least and the greatest that can be
/// set.
pub proof fn the_first_settings_can_be_set(app: App)
    requires
        call_ensures(App::new, (), app),
    ensures
        100 == MIN_TIMEOUT_MS <= app.timeout_ms <= MAX_TIMEOUT_MS == 5000,
        1 == MIN_WORKERS <= app.workers <= MAX_WORKERS == 512,
{
    assert(app@ == initial());
}

} // verus!
