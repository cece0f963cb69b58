//! Port scans: which ports are tried, how a connection attempt is judged, and
//! the record that is kept of a scan.

use vstd::prelude::*;
use vstd::relations::{sorted_by, total_ordering};
use vstd::seq_lib::{group_to_multiset_ensures, lemma_sorted_unique, to_multiset_insert};

verus! {

/// The number of TCP ports of an address.
pub const TOTAL_PORTS: usize = 65_535;

/// The largest number of connection attempts that may be under way at once.
pub const MAX_PORT_CONCURRENCY: usize = 1024;

/// What a scan finds out about a port.
#[derive(Clone, Copy, Debug, PartialEq, Eq, Structural)]
pub enum PortState {
    Open,
    Closed,
    Filtered,
}

/// How a connection attempt ended.
#[derive(Clone, Copy, Debug, PartialEq, Eq, Structural)]
pub enum ConnectOutcome {
    Connected,
    Refused,
    Failed,
    TimedOut,
}

/// The verdict on a port: only a connection makes it open, and only a refusal
/// makes it closed.
pub open spec fn verdict(outcome: ConnectOutcome) -> PortState {
    match outcome {
        ConnectOutcome::Connected => PortState::Open,
        ConnectOutcome::Refused => PortState::Closed,
        _ => PortState::Filtered,
    }
}

/// Judges a port by how the attempt to connect to it ended.
pub fn classify(outcome: ConnectOutcome) -> (r: PortState)
    ensures
        r == verdict(outcome),
{
    match outcome {
        ConnectOutcome::Connected => PortState::Open,
        ConnectOutcome::Refused => PortState::Closed,
        ConnectOutcome::Failed => PortState::Filtered,
        ConnectOutcome::TimedOut => PortState::Filtered,
    }
}

/// The port to try after `last`, none when the scan is cancelled or every port
/// has had its turn. A scan begins with `last` zero.
pub open spec fn port_after(last: u16, cancelled: bool) -> Option<u16> {
    if cancelled || last >= TOTAL_PORTS {
        None
    } else {
        Some((last + 1) as u16)
    }
}

/// The port to try after `last`.
pub fn next_port(last: u16, cancelled: bool) -> (r: Option<u16>)
    ensures
        r == port_after(last, cancelled),
{
    if cancelled || last as usize >= TOTAL_PORTS {
        None
    } else {
        Some(last + 1)
    }
}

/// The ports that a scan which is never cancelled tries after `last`.
pub open spec fn ports_after(last: u16) -> Seq<u16>
    decreases u16::MAX - last,
{
    match port_after(last, false) {
        Some(port) => if port > last {
            seq![port] + ports_after(port)
        } else {
            Seq::empty()
        },
        None => Seq::empty(),
    }
}

/// A scan that is left to run tries every TCP port from the first to the last,
/// each exactly once.
pub proof fn scan_tries_every_port()
    ensures
        ports_after(0) == Seq::new(TOTAL_PORTS as nat, |i: int| (i + 1) as u16),
{
    lemma_ports_after(0);
}

proof fn lemma_ports_after(last: u16)
    ensures
        ports_after(last) =~= Seq::new((TOTAL_PORTS - last) as nat, |i: int| (last + i + 1) as u16),
    decreases u16::MAX - last,
{
    if last < TOTAL_PORTS {
        lemma_ports_after((last + 1) as u16);
    }
}

/// The record of a scan.
///
/// `started_at` is a reading of a monotonic clock in nanoseconds.
#[derive(Clone, Debug)]
pub struct PortScanState {
    pub completed: usize,
    pub total: usize,
    pub open: usize,
    pub closed: usize,
    pub filtered: usize,
    pub finished: bool,
    pub open_ports: Vec<u16>,
    pub started_at: Option<u64>,
}

/// What a [`PortScanState`] holds.
pub struct ScanModel {
    pub completed: int,
    pub total: int,
    pub open: int,
    pub closed: int,
    pub filtered: int,
    pub finished: bool,
    pub open_ports: Seq<u16>,
    pub started_at: Option<u64>,
}

impl View for PortScanState {
    type V = ScanModel;

    open spec fn view(&self) -> ScanModel {
        ScanModel {
            completed: self.completed as int,
            total: self.total as int,
            open: self.open as int,
            closed: self.closed as int,
            filtered: self.filtered as int,
            finished: self.finished,
            open_ports: self.open_ports@,
            started_at: self.started_at,
        }
    }
}

/// The record of a scan in which nothing has happened.
pub open spec fn idle_scan() -> ScanModel {
    ScanModel {
        completed: 0,
        total: TOTAL_PORTS as int,
        open: 0,
        closed: 0,
        filtered: 0,
        finished: false,
        open_ports: Seq::empty(),
        started_at: None,
    }
}

/// The record of a scan of `total` ports that starts at `now`.
pub open spec fn started_scan(total: int, now: u64) -> ScanModel {
    ScanModel { total, started_at: Some(now), ..idle_scan() }
}

/// The order in which open ports are listed.
pub open spec fn port_order() -> spec_fn(u16, u16) -> bool {
    |a: u16, b: u16| a <= b
}

/// The list of open ports with `port` among them, in ascending order where it
/// was not there before.
pub open spec fn with_port(ports: Seq<u16>, port: u16) -> Seq<u16> {
    if ports.contains(port) {
        ports
    } else {
        ports.push(port).sort_by(port_order())
    }
}

/// The record after the verdict on one more port.
pub open spec fn after_check(scan: ScanModel, port: u16, state: PortState) -> ScanModel {
    match state {
        PortState::Open => ScanModel {
            completed: scan.completed + 1,
            open: scan.open + 1,
            open_ports: with_port(scan.open_ports, port),
            ..scan
        },
        PortState::Closed => ScanModel {
            completed: scan.completed + 1,
            closed: scan.closed + 1,
            ..scan
        },
        PortState::Filtered => ScanModel {
            completed: scan.completed + 1,
            filtered: scan.filtered + 1,
            ..scan
        },
    }
}

/// The record of a scan that has come to its end.
pub open spec fn after_finish(scan: ScanModel) -> ScanModel {
    ScanModel { completed: scan.total, finished: true, ..scan }
}

/// The counters have room for one more port with that verdict.
pub open spec fn has_room(scan: ScanModel, state: PortState) -> bool {
    &&& scan.completed < usize::MAX
    &&& match state {
        PortState::Open => scan.open < usize::MAX,
        PortState::Closed => scan.closed < usize::MAX,
        PortState::Filtered => scan.filtered < usize::MAX,
    }
}

/// The time since the scan started, where there is any.
pub open spec fn elapsed_at(scan: ScanModel, now: u64) -> Option<u64> {
    match scan.started_at {
        Some(start) => if start < now {
            Some((now - start) as u64)
        } else {
            None
        },
        None => None,
    }
}

/// The number of ports that are still to come.
pub open spec fn remaining_of(total: int, completed: int) -> int {
    if completed < total {
        total - completed
    } else {
        0
    }
}

proof fn lemma_port_order()
    ensures
        total_ordering(port_order()),
{
}

/// The ports of `ports` in ascending order.
fn sorted_ports(ports: &Vec<u16>) -> (r: Vec<u16>)
    ensures
        r@ == ports@.sort_by(port_order()),
{
    let mut out: Vec<u16> = Vec::new();
    let mut i: usize = 0;
    assert(ports@.take(0) =~= out@);
    while i < ports.len()
        invariant
            i <= ports@.len(),
            sorted_by(out@, port_order()),
            out@.to_multiset() == ports@.take(i as int).to_multiset(),
        decreases ports@.len() - i,
    {
        let port: u16 = ports[i];
        let mut at: usize = out.len();
        while 0 < at && out[at - 1] > port
            invariant
                at <= out@.len(),
                forall|k: int| at <= k < out@.len() ==> #[trigger] out@[k] > port,
            decreases at,
        {
            at = at - 1;
        }
        let ghost before = out@;
        out.insert(at, port);
        proof {
            broadcast use group_to_multiset_ensures;

            assert(out@ == before.insert(at as int, port));
            to_multiset_insert(before, at as int, port);
            assert(ports@.take(i + 1) =~= ports@.take(i as int).push(port));
            assert forall|k: int, m: int| 0 <= k < m < out@.len() implies #[trigger] port_order()(
                out@[k],
                out@[m],
            ) by {
                let bk = if k < at { k } else { k - 1 };
                let bm = if m < at { m } else { m - 1 };
                if k != at && m != at {
                    assert(port_order()(before[bk], before[bm]));
                } else if k == at {
                    assert(before[bm] > port);
                } else if k + 1 < at {
                    assert(port_order()(before[k], before[at - 1]));
                }
            }
        }
        i = i + 1;
    }
    proof {
        lemma_port_order();
        assert(ports@.take(i as int) =~= ports@);
        ports@.lemma_sort_by_ensures(port_order());
        lemma_sorted_unique(out@, ports@.sort_by(port_order()), port_order());
    }
    out
}

fn contains_port(ports: &Vec<u16>, port: u16) -> (r: bool)
    ensures
        r == ports@.contains(port),
{
    let mut i: usize = 0;
    while i < ports.len()
        invariant
            i <= ports@.len(),
            forall|k: int| 0 <= k < i ==> #[trigger] ports@[k] != port,
        decreases ports@.len() - i,
    {
        if ports[i] == port {
            return true;
        }
        i = i + 1;
    }
    false
}

impl Default for PortScanState {
    fn default() -> (r: PortScanState)
        ensures
            r@ == idle_scan(),
    {
        let r: PortScanState = PortScanState {
            completed: 0,
            total: TOTAL_PORTS,
            open: 0,
            closed: 0,
            filtered: 0,
            finished: false,
            open_ports: Vec::new(),
            started_at: None,
        };
        assert(r@.open_ports =~= Seq::<u16>::empty());
        r
    }
}

impl PortScanState {
    /// A scan of `total` ports that starts at `now`.
    pub fn started(total: usize, now: u64) -> (r: PortScanState)
        ensures
            r@ == started_scan(total as int, now),
    {
        PortScanState { total, started_at: Some(now), ..PortScanState::default() }
    }

    /// Tells whether the counters have room for one more port with that verdict.
    pub fn has_room(&self, state: PortState) -> (r: bool)
        ensures
            r == has_room(self@, state),
    {
        self.completed < usize::MAX && match state {
            PortState::Open => self.open < usize::MAX,
            PortState::Closed => self.closed < usize::MAX,
            PortState::Filtered => self.filtered < usize::MAX,
        }
    }

    /// Enters the verdict on a port.
    pub fn record(&mut self, port: u16, state: PortState)
        requires
            has_room(old(self)@, state),
        ensures
            final(self)@ == after_check(old(self)@, port, state),
    {
        self.completed = self.completed + 1;
        match state {
            PortState::Open => {
                self.open = self.open + 1;
                if !contains_port(&self.open_ports, port) {
                    self.open_ports.push(port);
                    self.open_ports = sorted_ports(&self.open_ports);
                }
            },
            PortState::Closed => {
                self.closed = self.closed + 1;
            },
            PortState::Filtered => {
                self.filtered = self.filtered + 1;
            },
        }
    }

    /// Ends the scan.
    pub fn finish(&mut self)
        ensures
            final(self)@ == after_finish(old(self)@),
    {
        self.completed = self.total;
        self.finished = true;
    }

    /// The nanoseconds since the scan started, `None` where it has not started or
    /// no time has passed.
    pub fn elapsed(&self, now: u64) -> (r: Option<u64>)
        ensures
            r == elapsed_at(self@, now),
    {
        match self.started_at {
            Some(start) => if start < now {
                Some(now - start)
            } else {
                None
            },
            None => None,
        }
    }

    /// The number of ports that are still to come.
    pub fn remaining(&self) -> (r: usize)
        ensures
            r == remaining_of(self@.total, self@.completed),
    {
        self.total.saturating_sub(self.completed)
    }
}

/// Ports in strictly ascending order, so that none occurs twice.
pub open spec fn strictly_ascending(ports: Seq<u16>) -> bool {
    forall|i: int, j: int| 0 <= i < j < ports.len() ==> #[trigger] ports[i] < #[trigger] ports[j]
}

/// What holds of every record that is kept: until the scan has ended each port
/// counted is counted under one verdict, the open ports are listed in ascending
/// order and each once, and none is listed without having been counted.
pub open spec fn consistent_scan(scan: ScanModel) -> bool {
    &&& 0 <= scan.open && 0 <= scan.closed && 0 <= scan.filtered
    &&& !scan.finished ==> scan.completed == scan.open + scan.closed + scan.filtered
    &&& strictly_ascending(scan.open_ports)
    &&& scan.open_ports.len() <= scan.open
}

/// Entering a port in an ascending list keeps it ascending, and adds that port
/// and no other.
pub proof fn with_port_adds_one(ports: Seq<u16>, port: u16)
    requires
        strictly_ascending(ports),
    ensures
        strictly_ascending(with_port(ports, port)),
        forall|p: u16| with_port(ports, port).contains(p) <==> ports.contains(p) || p == port,
        with_port(ports, port).len() == if ports.contains(port) {
            ports.len()
        } else {
            ports.len() + 1
        },
{
    broadcast use group_to_multiset_ensures;

    if !ports.contains(port) {
        let longer = ports.push(port);
        let sorted = longer.sort_by(port_order());
        lemma_port_order();
        longer.lemma_sort_by_ensures(port_order());
        assert(sorted.len() == longer.len()) by {
            assert(sorted.to_multiset().len() == sorted.len());
            assert(longer.to_multiset().len() == longer.len());
        }
        assert forall|p: u16| sorted.contains(p) <==> ports.contains(p) || p == port by {
            assert(sorted.contains(p) <==> sorted.to_multiset().count(p) > 0);
            assert(longer.contains(p) <==> longer.to_multiset().count(p) > 0);
            assert(longer[ports.len() as int] == port);
            if ports.contains(p) {
                let k = choose|k: int| 0 <= k < ports.len() && ports[k] == p;
                assert(longer[k] == p);
            }
        }
        assert(longer.no_duplicates()) by {
            assert forall|i: int, j: int|
                0 <= i < longer.len() && 0 <= j < longer.len() && i != j implies longer[i]
                != longer[j] by {
                if i < ports.len() && j < ports.len() {
                    assert(ports[i] == longer[i] && ports[j] == longer[j]);
                } else if i < ports.len() {
                    assert(ports.contains(ports[i]));
                } else {
                    assert(ports.contains(ports[j]));
                }
            }
        }
        longer.lemma_multiset_has_no_duplicates();
        sorted.lemma_multiset_has_no_duplicates_conv();
        assert forall|i: int, j: int| 0 <= i < j < sorted.len() implies #[trigger] sorted[i]
            < #[trigger] sorted[j] by {
            assert(port_order()(sorted[i], sorted[j]));
            assert(sorted[i] != sorted[j]);
        }
    }
}

/// Every step in the life of a scan keeps its record consistent.
pub proof fn scan_stays_consistent(scan: ScanModel, port: u16, state: PortState, total: int, now: u64)
    requires
        consistent_scan(scan),
    ensures
        consistent_scan(idle_scan()),
        consistent_scan(started_scan(total, now)),
        consistent_scan(after_check(scan, port, state)),
        consistent_scan(after_finish(scan)),
{
    with_port_adds_one(scan.open_ports, port);
}

/// The record after a series of verdicts.
pub open spec fn after_checks(scan: ScanModel, checks: Seq<(u16, PortState)>) -> ScanModel
    decreases checks.len(),
{
    if checks.len() == 0 {
        scan
    } else {
        let (port, state) = checks.last();
        after_check(after_checks(scan, checks.drop_last()), port, state)
    }
}

/// How often a verdict was given.
pub open spec fn tally(checks: Seq<(u16, PortState)>, state: PortState) -> int
    decreases checks.len(),
{
    if checks.len() == 0 {
        0
    } else {
        tally(checks.drop_last(), state) + if checks.last().1 == state {
            1int
        } else {
            0
        }
    }
}

/// The record of a scan says of the verdicts since its start how many there
/// were of each kind and in all, and lists exactly the ports that were found
/// open, in ascending order and each once.
pub proof fn scan_records_every_verdict(total: int, now: u64, checks: Seq<(u16, PortState)>)
    ensures
        ({
            let scan = after_checks(started_scan(total, now), checks);
            &&& scan.completed == checks.len()
            &&& scan.open == tally(checks, PortState::Open)
            &&& scan.closed == tally(checks, PortState::Closed)
            &&& scan.filtered == tally(checks, PortState::Filtered)
            &&& scan.total == total
            &&& scan.started_at == Some(now)
            &&& !scan.finished
            &&& strictly_ascending(scan.open_ports)
            &&& forall|p: u16| #[trigger]
                scan.open_ports.contains(p) <==> checks.contains((p, PortState::Open))
        }),
    decreases checks.len(),
{
    if checks.len() > 0 {
        let shorter = checks.drop_last();
        let (port, state) = checks.last();
        scan_records_every_verdict(total, now, shorter);
        let scan = after_checks(started_scan(total, now), shorter);
        with_port_adds_one(scan.open_ports, port);
        assert forall|p: u16| #[trigger]
            after_check(scan, port, state).open_ports.contains(p) <==> checks.contains(
                (p, PortState::Open),
            ) by {
            let entry = (p, PortState::Open);
            assert(checks.contains(entry) <==> shorter.contains(entry) || checks.last() == entry) by {
                if shorter.contains(entry) {
                    let k = choose|k: int| 0 <= k < shorter.len() && shorter[k] == entry;
                    assert(checks[k] == entry);
                }
                if checks.contains(entry) && checks.last() != entry {
                    let k = choose|k: int| 0 <= k < checks.len() && checks[k] == entry;
                    assert(shorter[k] == entry);
                }
                if checks.last() == entry {
                    assert(checks[checks.len() - 1] == entry);
                }
            }
            assert(scan.open_ports.contains(p) <==> shorter.contains(entry));
        }
    }
}

/// When a scan has given its verdict on each port there is, its end changes
/// nothing but that it is marked as ended.
pub proof fn finishing_a_whole_scan(now: u64, checks: Seq<(u16, PortState)>)
    requires
        checks.len() == TOTAL_PORTS,
    ensures
        ({
            let scan = after_checks(started_scan(TOTAL_PORTS as int, now), checks);
            after_finish(scan) == (ScanModel { finished: true, ..scan })
        }),
{
    scan_records_every_verdict(TOTAL_PORTS as int, now, checks);
}

/// A port is open exactly where the connection was made, and closed exactly where
/// it was refused.
pub proof fn attempts_are_judged_by_their_end(outcome: ConnectOutcome, r: PortState)
    requires
        call_ensures(classify, (outcome,), r),
    ensures
        r is Open <==> outcome is Connected,
        r is Closed <==> outcome is Refused,
        r is Filtered <==> (outcome is Failed || outcome is TimedOut),
{
}

/// A scan goes from each port to the next one up, and ends behind the last port or
/// as soon as it is cancelled.
pub proof fn ports_are_tried_one_by_one(last: u16, cancelled: bool, r: Option<u16>)
    requires
        call_ensures(next_port, (last, cancelled), r),
    ensures
        r is None <==> cancelled || last == 65535,
        r matches Some(port) ==> port == last + 1,
{
}

/// A scan starts with nothing counted, nothing listed and not ended, at the time
/// that it is started.
pub proof fn a_scan_starts_from_nothing(total: usize, now: u64, r: PortScanState)
    requires
        call_ensures(PortScanState::started, (total, now), r),
    ensures
        r.total == total,
        r.started_at == Some(now),
        r.completed == 0,
        r.open == 0,
        r.closed == 0,
        r.filtered == 0,
        r.open_ports@.len() == 0,
        !r.finished,
{
    assert(r@ == started_scan(total as int, now));
}

/// Each verdict counts once in all, and once for its kind; nothing else is counted,
/// and the size, the start and the end of the scan stay as they were.
pub proof fn each_verdict_counts_once(scan: &mut PortScanState, port: u16, state: PortState)
    requires
        call_ensures(PortScanState::record, (scan, port, state), ()),
    ensures
        final(scan).completed == old(scan).completed + 1,
        final(scan).open - old(scan).open == if state is Open {
            1int
        } else {
            0
        },
        final(scan).closed - old(scan).closed == if state is Closed {
            1int
        } else {
            0
        },
        final(scan).filtered - old(scan).filtered == if state is Filtered {
            1int
        } else {
            0
        },
        final(scan).total == old(scan).total,
        final(scan).started_at == old(scan).started_at,
        final(scan).finished == old(scan).finished,
{
    assert(final(scan)@ == after_check(old(scan)@, port, state));
}

/// A port is listed from the time that it is found open, and no other is; one that
/// is found for the first time leaves the list in ascending order, with all that
/// was listed before, as often as it was.
pub proof fn each_open_port_is_listed(scan: &mut PortScanState, port: u16, state: PortState)
    requires
        call_ensures(PortScanState::record, (scan, port, state), ()),
    ensures
        !(state is Open) ==> final(scan).open_ports@ == old(scan).open_ports@,
        old(scan).open_ports@.contains(port) ==> final(scan).open_ports@ == old(scan).open_ports@,
        state is Open && !old(scan).open_ports@.contains(port) ==> {
            let ports = final(scan).open_ports@;
            &&& ports.to_multiset() == old(scan).open_ports@.to_multiset().insert(port)
            &&& forall|i: int, j: int|
                0 <= i < j < ports.len() ==> #[trigger] ports[i] <= #[trigger] ports[j]
        },
        state is Open ==> final(scan).open_ports@.contains(port),
{
    broadcast use group_to_multiset_ensures;

    let before = old(scan).open_ports@;
    let after = final(scan).open_ports@;
    assert(final(scan)@ == after_check(old(scan)@, port, state));
    if state is Open && !before.contains(port) {
        let pushed = before.push(port);
        assert(after == pushed.sort_by(port_order()));
        lemma_port_order();
        pushed.lemma_sort_by_ensures(port_order());
        assert(pushed[pushed.len() - 1] == port);
        assert(pushed.contains(port));
        assert(pushed.to_multiset().count(port) > 0);
        assert(after.to_multiset().count(port) > 0);
        assert(after.contains(port));
        assert forall|i: int, j: int| 0 <= i < j < after.len() implies #[trigger] after[i]
            <= #[trigger] after[j] by {
            assert(port_order()(after[i], after[j]));
        }
    }
}

/// Ending a scan counts all its ports as tried, and keeps what was found.
pub proof fn ending_a_scan_keeps_what_was_found(scan: &mut PortScanState)
    requires
        call_ensures(PortScanState::finish, (scan,), ()),
    ensures
        final(scan).finished,
        final(scan).completed == old(scan).total,
        final(scan).total == old(scan).total,
        final(scan).open == old(scan).open,
        final(scan).closed == old(scan).closed,
        final(scan).filtered == old(scan).filtered,
        final(scan).open_ports@ == old(scan).open_ports@,
        final(scan).started_at == old(scan).started_at,
{
    assert(final(scan)@ == after_finish(old(scan)@));
}

/// The time that a scan has taken leads from its start to the present, and there
/// is one exactly where the present lies behind the start.
pub proof fn time_runs_from_the_start(scan: &PortScanState, now: u64, r: Option<u64>)
    requires
        call_ensures(PortScanState::elapsed, (scan, now), r),
    ensures
        scan.started_at is None ==> r is None,
        scan.started_at matches Some(start) ==> (r is Some <==> start < now),
        r matches Some(elapsed) ==> scan.started_at->0 + elapsed == now,
{
}

/// What has been tried and what is still to come make up the whole scan, unless
/// more was tried than there was.
pub proof fn tried_and_remaining_make_the_whole(scan: &PortScanState, r: usize)
    requires
        call_ensures(PortScanState::remaining, (scan,), r),
    ensures
        scan.completed <= scan.total ==> scan.completed + r == scan.total,
        scan.total <= scan.completed ==> r == 0,
{
}

/// There is room for a verdict exactly where neither of the two counters that it
/// adds to has come to its end.
pub proof fn room_is_where_counters_can_grow(scan: &PortScanState, state: PortState, r: bool)
    requires
        call_ensures(PortScanState::has_room, (scan, state), r),
    ensures
        r ==> scan.completed + 1 <= usize::MAX,
        r && state is Open ==> scan.open + 1 <= usize::MAX,
        r && state is Closed ==> scan.closed + 1 <= usize::MAX,
        r && state is Filtered ==> scan.filtered + 1 <= usize::MAX,
        !r ==> {
            ||| scan.completed == usize::MAX
            ||| state is Open && scan.open == usize::MAX
            ||| state is Closed && scan.closed == usize::MAX
            ||| state is Filtered && scan.filtered == usize::MAX
        },
{
}

} // verus!
