//! The work of an inspection: what a lookup leads to, in which order a worker
//! probes the addresses, and what is reported at the end.

use vstd::prelude::*;

use crate::addr::{ascending, comes_before, rank_is_the_order, sorted_distinct, IpAddr};
use crate::state::{MessageModel, WorkerMessage};

verus! {

/// The report that a lookup begins.
pub fn resolving(domain: &str) -> (r: WorkerMessage)
    ensures
        r@ == MessageModel::Status("Resolving "@ + domain@ + "..."@),
{
    let mut text: String = "Resolving ".to_owned();
    text.append(domain);
    text.append("...");
    WorkerMessage::Status(text)
}

/// What a lookup leads to: the addresses that it found in ascending order and
/// each once, or the report that there are none. A lookup that failed is given by
/// the text of its error.
pub fn resolution(lookup: Result<Vec<IpAddr>, String>) -> (r: Result<Vec<IpAddr>, WorkerMessage>)
    ensures
        match lookup {
            Ok(found) => if found@.len() == 0 {
                r matches Err(report) && report@ == MessageModel::Error(
                    "No IP addresses were found."@,
                )
            } else {
                r matches Ok(ips) && ascending(ips@) && ips@.to_set() == found@.to_set()
            },
            Err(error) => r matches Err(report) && report@ == MessageModel::Error(
                "DNS resolution failed: "@ + error@,
            ),
        },
{
    match lookup {
        Ok(found) => {
            let ips: Vec<IpAddr> = sorted_distinct(&found);
            if ips.is_empty() {
                proof {
                    if found@.len() > 0 {
                        assert(found@.to_set().contains(found@[0]));
                        assert(ips@.to_set().contains(found@[0]));
                    }
                }
                return Err(WorkerMessage::Error("No IP addresses were found.".to_owned()));
            }
            proof {
                assert(ips@.to_set().contains(ips@[0]));
                assert(found@.to_set().contains(ips@[0]));
            }
            Ok(ips)
        },
        Err(error) => {
            let mut text: String = "DNS resolution failed: ".to_owned();
            text.append(error.as_str());
            Err(WorkerMessage::Error(text))
        },
    }
}

/// The number of workers that probe addresses side by side.
pub fn worker_count(workers: usize) -> (r: usize)
    ensures
        r == if workers < 1 {
            1
        } else if workers > 128 {
            128
        } else {
            workers
        },
{
    if workers < 1 {
        1
    } else if workers > 128 {
        128
    } else {
        workers
    }
}

/// What a worker is doing.
#[derive(Clone, Copy, Debug, PartialEq, Eq, Structural)]
pub enum Stage {
    Idle,
    Ping(IpAddr),
    ReverseDns(IpAddr),
    Geolocate(IpAddr),
    Stopped,
}

/// What a worker does after `stage`: a cancelled one stops; one that is done with
/// an address takes the last of the queue, and stops where that is empty.
pub open spec fn stage_after(stage: Stage, cancelled: bool, queue: Seq<IpAddr>) -> Stage {
    if cancelled {
        Stage::Stopped
    } else {
        match stage {
            Stage::Ping(ip) => Stage::ReverseDns(ip),
            Stage::ReverseDns(ip) => Stage::Geolocate(ip),
            Stage::Stopped => Stage::Stopped,
            _ => if queue.len() > 0 {
                Stage::Ping(queue.last())
            } else {
                Stage::Stopped
            },
        }
    }
}

/// The queue that is left: one address shorter where a worker has taken one.
pub open spec fn queue_after(stage: Stage, cancelled: bool, queue: Seq<IpAddr>) -> Seq<IpAddr> {
    if !cancelled && (stage is Idle || stage is Geolocate) && queue.len() > 0 {
        queue.drop_last()
    } else {
        queue
    }
}

/// Moves a worker on from `stage`, which it has brought to its end.
pub fn advance(stage: Stage, cancelled: bool, queue: &mut Vec<IpAddr>) -> (r: Stage)
    ensures
        r == stage_after(stage, cancelled, old(queue)@),
        final(queue)@ == queue_after(stage, cancelled, old(queue)@),
{
    if cancelled {
        return Stage::Stopped;
    }
    match stage {
        Stage::Ping(ip) => Stage::ReverseDns(ip),
        Stage::ReverseDns(ip) => Stage::Geolocate(ip),
        Stage::Stopped => Stage::Stopped,
        Stage::Idle | Stage::Geolocate(_) => match queue.pop() {
            Some(ip) => Stage::Ping(ip),
            None => Stage::Stopped,
        },
    }
}

/// The probes that a worker still makes when it is alone with the queue and
/// never cancelled.
pub open spec fn probes_after(stage: Stage, queue: Seq<IpAddr>) -> Seq<Stage>
    decreases
            queue.len(),
            (match stage {
                Stage::Ping(_) => 2int,
                Stage::ReverseDns(_) => 1int,
                _ => 0int,
            }),
{
    let next = stage_after(stage, false, queue);
    if next is Stopped {
        Seq::empty()
    } else {
        seq![next] + probes_after(next, queue_after(stage, false, queue))
    }
}

/// The three probes of an address, for each address of the queue from the last
/// to the first.
pub open spec fn course(queue: Seq<IpAddr>) -> Seq<Stage>
    decreases queue.len(),
{
    if queue.len() == 0 {
        Seq::empty()
    } else {
        let ip = queue.last();
        seq![Stage::Ping(ip), Stage::ReverseDns(ip), Stage::Geolocate(ip)] + course(
            queue.drop_last(),
        )
    }
}

/// A worker that is left to itself pings every address of the queue, then looks
/// up its name, then locates it, each exactly once, and then stops.
pub proof fn worker_probes_every_address(queue: Seq<IpAddr>)
    ensures
        probes_after(Stage::Idle, queue) == course(queue),
{
    lemma_course(Stage::Idle, queue);
}

proof fn lemma_course(stage: Stage, queue: Seq<IpAddr>)
    requires
        stage is Idle || stage is Geolocate,
    ensures
        probes_after(stage, queue) == course(queue),
    decreases queue.len(),
{
    if queue.len() > 0 {
        let ip = queue.last();
        let rest = queue.drop_last();
        lemma_course(Stage::Geolocate(ip), rest);
        assert(probes_after(Stage::ReverseDns(ip), rest) == seq![Stage::Geolocate(ip)]
            + probes_after(Stage::Geolocate(ip), rest));
        assert(probes_after(Stage::Ping(ip), rest) == seq![Stage::ReverseDns(ip)]
            + probes_after(Stage::ReverseDns(ip), rest));
        assert(probes_after(stage, queue) == seq![Stage::Ping(ip)] + probes_after(
            Stage::Ping(ip),
            rest,
        ));
        assert(probes_after(stage, queue) =~= course(queue));
    }
}

/// A worker that is cancelled makes no further probe and takes no address.
pub proof fn cancelled_worker_stops(stage: Stage, queue: Seq<IpAddr>)
    ensures
        stage_after(stage, true, queue) == Stage::Stopped,
        queue_after(stage, true, queue) == queue,
{
}

/// A pool of workers: what each is doing, the queue that they share, the
/// addresses that have been pinged so far, and the probes made so far.
pub struct Pool {
    pub stages: Seq<Stage>,
    pub queue: Seq<IpAddr>,
    pub pinged: Seq<IpAddr>,
    pub probes: Seq<Stage>,
}

/// The pool after one worker has moved on.
pub open spec fn pool_after(pool: Pool, worker: int, cancelled: bool) -> Pool {
    let stage = pool.stages[worker];
    let next = stage_after(stage, cancelled, pool.queue);
    Pool {
        stages: pool.stages.update(worker, next),
        queue: queue_after(stage, cancelled, pool.queue),
        pinged: match next {
            Stage::Ping(ip) => pool.pinged.push(ip),
            _ => pool.pinged,
        },
        probes: if next is Stopped {
            pool.probes
        } else {
            pool.probes.push(next)
        },
    }
}

/// The pool after the workers have moved on in the given turns, each with
/// whether the inspection was cancelled by then.
pub open spec fn pool_after_turns(pool: Pool, turns: Seq<(int, bool)>) -> Pool
    decreases turns.len(),
{
    if turns.len() == 0 {
        pool
    } else {
        let (worker, cancelled) = turns.last();
        pool_after(pool_after_turns(pool, turns.drop_last()), worker, cancelled)
    }
}

/// However the workers take turns, an address is either still in the queue or
/// has been pinged, and never both: none is lost, and none is pinged twice.
pub proof fn pool_pings_each_address_once(pool: Pool, turns: Seq<(int, bool)>)
    requires
        pool.pinged.len() == 0,
    ensures
        ({
            let end = pool_after_turns(pool, turns);
            pool.queue == end.queue + end.pinged.reverse()
        }),
    decreases turns.len(),
{
    if turns.len() == 0 {
        assert(pool.queue =~= pool.queue + pool.pinged.reverse());
    } else {
        let (worker, cancelled) = turns.last();
        let before = pool_after_turns(pool, turns.drop_last());
        pool_pings_each_address_once(pool, turns.drop_last());
        let after = pool_after(before, worker, cancelled);
        let stage = before.stages[worker];
        let next = stage_after(stage, cancelled, before.queue);
        if next is Ping {
            assert(after.queue == before.queue.drop_last());
            assert(after.pinged == before.pinged.push(before.queue.last()));
            assert(after.queue + after.pinged.reverse() =~= before.queue
                + before.pinged.reverse());
        }
    }
}

/// The probe that a worker makes is about `ip`.
pub open spec fn is_about(stage: Stage, ip: IpAddr) -> bool {
    stage == Stage::Ping(ip) || stage == Stage::ReverseDns(ip) || stage == Stage::Geolocate(ip)
}

/// The probes about `ip`, in the order in which they were made.
pub open spec fn probes_about(probes: Seq<Stage>, ip: IpAddr) -> Seq<Stage>
    decreases probes.len(),
{
    if probes.len() == 0 {
        Seq::empty()
    } else if is_about(probes.last(), ip) {
        probes_about(probes.drop_last(), ip).push(probes.last())
    } else {
        probes_about(probes.drop_last(), ip)
    }
}

/// The three probes of an address: ping, name, location.
pub open spec fn three_probes(ip: IpAddr) -> Seq<Stage> {
    seq![Stage::Ping(ip), Stage::ReverseDns(ip), Stage::Geolocate(ip)]
}

/// A pool at the start of an inspection: every worker is idle, no probe has been
/// made, and no address is in the queue twice.
pub open spec fn fresh_pool(pool: Pool) -> bool {
    &&& pool.queue.no_duplicates()
    &&& pool.pinged.len() == 0
    &&& pool.probes.len() == 0
    &&& forall|w: int| 0 <= w < pool.stages.len() ==> #[trigger] pool.stages[w] == Stage::Idle
}

/// Every turn is taken by one of `workers` workers.
pub open spec fn turns_of(turns: Seq<(int, bool)>, workers: nat) -> bool {
    forall|i: int| 0 <= i < turns.len() ==> 0 <= (#[trigger] turns[i]).0 < workers
}

/// The inspection was cancelled at none of the turns.
pub open spec fn never_cancelled(turns: Seq<(int, bool)>) -> bool {
    forall|i: int| 0 <= i < turns.len() ==> !(#[trigger] turns[i]).1
}

/// The probes that a worker in `stage` has made of its address.
spec fn made_so_far(stage: Stage) -> Seq<Stage> {
    match stage {
        Stage::Ping(ip) => seq![Stage::Ping(ip)],
        Stage::ReverseDns(ip) => seq![Stage::Ping(ip), Stage::ReverseDns(ip)],
        Stage::Geolocate(ip) => three_probes(ip),
        _ => Seq::empty(),
    }
}

/// Some worker has `ip` in hand.
spec fn in_hand(stages: Seq<Stage>, ip: IpAddr) -> bool {
    exists|w: int| 0 <= w < stages.len() && is_about(#[trigger] stages[w], ip)
}

/// How a pool stands to the one it began as; `whole` tells that nothing has been
/// cancelled.
spec fn on_course(start: Pool, pool: Pool, whole: bool) -> bool {
    &&& pool.stages.len() == start.stages.len()
    &&& pool.queue.len() <= start.queue.len()
    &&& pool.queue == start.queue.take(pool.queue.len() as int)
    &&& forall|w: int|
        whole && 0 <= w < pool.stages.len() && #[trigger] pool.stages[w] == Stage::Stopped
            ==> pool.queue.len() == 0
    &&& forall|w: int, ip: IpAddr|
        0 <= w < pool.stages.len() && #[trigger] is_about(pool.stages[w], ip) ==> {
            &&& start.queue.contains(ip)
            &&& !pool.queue.contains(ip)
            &&& probes_about(pool.probes, ip) == made_so_far(pool.stages[w])
        }
    &&& forall|w: int, v: int, ip: IpAddr|
        0 <= w < pool.stages.len() && 0 <= v < pool.stages.len() && #[trigger] is_about(
            pool.stages[w],
            ip,
        ) && #[trigger] is_about(pool.stages[v], ip) ==> w == v
    &&& forall|ip: IpAddr| #[trigger]
        pool.queue.contains(ip) ==> probes_about(pool.probes, ip) == Seq::<Stage>::empty()
    &&& forall|ip: IpAddr|
        !start.queue.contains(ip) ==> #[trigger] probes_about(pool.probes, ip) == Seq::<
            Stage,
        >::empty()
    &&& forall|ip: IpAddr|
        whole && start.queue.contains(ip) && !pool.queue.contains(ip) && !in_hand(pool.stages, ip)
            ==> #[trigger] probes_about(pool.probes, ip) == three_probes(ip)
    &&& forall|ip: IpAddr| #[trigger]
        probes_about(pool.probes, ip).is_prefix_of(three_probes(ip))
}

proof fn lemma_one_more_probe(probes: Seq<Stage>, probe: Stage, ip: IpAddr)
    ensures
        probes_about(probes.push(probe), ip) == if is_about(probe, ip) {
            probes_about(probes, ip).push(probe)
        } else {
            probes_about(probes, ip)
        },
{
    assert(probes.push(probe).drop_last() =~= probes);
}

proof fn lemma_fresh_pool_is_on_course(pool: Pool)
    requires
        fresh_pool(pool),
    ensures
        on_course(pool, pool, true),
{
    assert(pool.queue =~= pool.queue.take(pool.queue.len() as int));
    assert forall|ip: IpAddr| #[trigger] probes_about(pool.probes, ip) == Seq::<Stage>::empty() by {}
    assert forall|ip: IpAddr| #[trigger]
        probes_about(pool.probes, ip).is_prefix_of(three_probes(ip)) by {
        assert(three_probes(ip).subrange(0, 0) =~= Seq::<Stage>::empty());
    }
}

#[verifier::spinoff_prover]
proof fn lemma_turn_stays_on_course(
    start: Pool,
    pool: Pool,
    worker: int,
    cancelled: bool,
    whole: bool,
)
    requires
        start.queue.no_duplicates(),
        on_course(start, pool, whole),
        0 <= worker < pool.stages.len(),
    ensures
        on_course(start, pool_after(pool, worker, cancelled), whole && !cancelled),
{
    let stage = pool.stages[worker];
    let after = pool_after(pool, worker, cancelled);
    let next = stage_after(stage, cancelled, pool.queue);
    let still = whole && !cancelled;
    let n = pool.queue.len();
    assert(after.stages[worker] == next);
    assert forall|w: int| 0 <= w < after.stages.len() && w != worker implies #[trigger] after.stages[w]
        == pool.stages[w] by {}
    assert(after.queue =~= start.queue.take(after.queue.len() as int));
    // What was taken from the queue is not in it any more.
    if next is Ping {
        let ip = pool.queue.last();
        assert(pool.queue[n - 1] == ip);
        assert(pool.queue.contains(ip));
        assert(start.queue[n - 1] == ip);
        assert(start.queue.contains(ip));
        assert(!after.queue.contains(ip)) by {
            if after.queue.contains(ip) {
                let k = choose|k: int| 0 <= k < after.queue.len() && after.queue[k] == ip;
                assert(start.queue[k] == ip);
            }
        }
    }
    assert forall|ip: IpAddr| after.queue.contains(ip) implies pool.queue.contains(ip) by {
        let k = choose|k: int| 0 <= k < after.queue.len() && after.queue[k] == ip;
        assert(pool.queue[k] == ip);
    }
    assert forall|ip: IpAddr| pool.queue.contains(ip) && !after.queue.contains(ip) implies next
        == Stage::Ping(ip) by {
        let k = choose|k: int| 0 <= k < n && pool.queue[k] == ip;
        if k < after.queue.len() {
            assert(after.queue[k] == ip);
        }
    }
    assert forall|ip: IpAddr| #[trigger] probes_about(after.probes, ip) == if is_about(next, ip) {
        probes_about(pool.probes, ip).push(next)
    } else {
        probes_about(pool.probes, ip)
    } by {
        lemma_one_more_probe(pool.probes, next, ip);
    }
    assert forall|ip: IpAddr| is_about(next, ip) implies {
        &&& start.queue.contains(ip)
        &&& !after.queue.contains(ip)
        &&& probes_about(after.probes, ip) == made_so_far(next)
    } by {
        if next is Ping {
            assert(pool.queue.contains(ip));
            assert(probes_about(pool.probes, ip) == Seq::<Stage>::empty());
        } else {
            assert(is_about(pool.stages[worker], ip));
        }
        assert(probes_about(after.probes, ip) =~= made_so_far(next));
    }
    assert forall|w: int, ip: IpAddr|
        0 <= w < after.stages.len() && #[trigger] is_about(after.stages[w], ip) implies {
        &&& start.queue.contains(ip)
        &&& !after.queue.contains(ip)
        &&& probes_about(after.probes, ip) == made_so_far(after.stages[w])
    } by {
        if w != worker {
            assert(is_about(pool.stages[w], ip));
            if is_about(next, ip) {
                if next is Ping {
                    assert(pool.queue.contains(ip));
                } else {
                    assert(is_about(pool.stages[worker], ip));
                }
            }
        }
    }
    assert forall|w: int, v: int, ip: IpAddr|
        0 <= w < after.stages.len() && 0 <= v < after.stages.len() && #[trigger] is_about(
            after.stages[w],
            ip,
        ) && #[trigger] is_about(after.stages[v], ip) implies w == v by {
        if w != v {
            if next is Ping && is_about(next, ip) {
                assert(pool.queue.contains(ip));
            }
            if w == worker {
                assert(is_about(pool.stages[v], ip));
            } else if v == worker {
                assert(is_about(pool.stages[w], ip));
            } else {
                assert(is_about(pool.stages[w], ip) && is_about(pool.stages[v], ip));
            }
            if !(next is Ping) && is_about(next, ip) {
                assert(is_about(pool.stages[worker], ip));
            }
        }
    }
    assert forall|ip: IpAddr| #[trigger] after.queue.contains(ip) implies probes_about(
        after.probes,
        ip,
    ) == Seq::<Stage>::empty() by {
        assert(pool.queue.contains(ip));
    }
    assert forall|ip: IpAddr| !start.queue.contains(ip) implies #[trigger] probes_about(
        after.probes,
        ip,
    ) == Seq::<Stage>::empty() by {
        assert(probes_about(pool.probes, ip) == Seq::<Stage>::empty());
    }
    assert forall|ip: IpAddr|
        still && start.queue.contains(ip) && !after.queue.contains(ip) && !in_hand(
            after.stages,
            ip,
        ) implies #[trigger] probes_about(after.probes, ip) == three_probes(ip) by {
        assert(!is_about(after.stages[worker], ip));
        assert(probes_about(after.probes, ip) == probes_about(pool.probes, ip));
        assert(!pool.queue.contains(ip));
        if is_about(stage, ip) {
            assert(is_about(pool.stages[worker], ip));
            assert(stage == Stage::Geolocate(ip));
        } else if in_hand(pool.stages, ip) {
            let w = choose|w: int| 0 <= w < pool.stages.len() && is_about(#[trigger] pool.stages[w], ip);
            assert(is_about(after.stages[w], ip));
        }
    }
    assert forall|ip: IpAddr| #[trigger]
        probes_about(after.probes, ip).is_prefix_of(three_probes(ip)) by {
        if is_about(next, ip) {
            let made = made_so_far(next);
            assert(made =~= three_probes(ip).subrange(0, made.len() as int));
        } else {
            assert(probes_about(pool.probes, ip).is_prefix_of(three_probes(ip)));
        }
    }
}

proof fn lemma_turns_stay_on_course(start: Pool, turns: Seq<(int, bool)>)
    requires
        fresh_pool(start),
        turns_of(turns, start.stages.len()),
    ensures
        on_course(start, pool_after_turns(start, turns), false),
        never_cancelled(turns) ==> on_course(start, pool_after_turns(start, turns), true),
    decreases turns.len(),
{
    if turns.len() == 0 {
        lemma_fresh_pool_is_on_course(start);
    } else {
        let fewer = turns.drop_last();
        assert forall|i: int| 0 <= i < fewer.len() implies 0 <= (#[trigger] fewer[i]).0
            < start.stages.len() by {
            assert(fewer[i] == turns[i]);
        }
        let (worker, cancelled) = turns.last();
        assert(turns[turns.len() - 1] == (worker, cancelled));
        lemma_turns_stay_on_course(start, fewer);
        let before = pool_after_turns(start, fewer);
        lemma_turn_stays_on_course(start, before, worker, cancelled, false);
        if never_cancelled(turns) {
            assert forall|i: int| 0 <= i < fewer.len() implies !(#[trigger] fewer[i]).1 by {
                assert(fewer[i] == turns[i]);
            }
            lemma_turn_stays_on_course(start, before, worker, cancelled, true);
        }
    }
}

/// However the workers take turns, and whether or not the inspection is
/// cancelled on the way, no probe of an address is made twice, none before the
/// one that precedes it, and none of an address that was not in the queue.
pub proof fn pool_probes_in_order(pool: Pool, turns: Seq<(int, bool)>, ip: IpAddr)
    requires
        fresh_pool(pool),
        turns_of(turns, pool.stages.len()),
    ensures
        ({
            let made = probes_about(pool_after_turns(pool, turns).probes, ip);
            &&& made.is_prefix_of(three_probes(ip))
            &&& !pool.queue.contains(ip) ==> made.len() == 0
        }),
{
    lemma_turns_stay_on_course(pool, turns);
    let end = pool_after_turns(pool, turns);
    assert(probes_about(end.probes, ip).is_prefix_of(three_probes(ip)));
}

/// When the workers of an inspection that was never cancelled have all stopped,
/// the queue is empty, and each address that was in it has been pinged once,
/// then had its name looked up once, then been located once.
pub proof fn pool_probes_every_address(pool: Pool, turns: Seq<(int, bool)>)
    requires
        fresh_pool(pool),
        0 < pool.stages.len(),
        turns_of(turns, pool.stages.len()),
        never_cancelled(turns),
        forall|w: int|
            0 <= w < pool.stages.len() ==> #[trigger] pool_after_turns(pool, turns).stages[w]
                == Stage::Stopped,
    ensures
        ({
            let end = pool_after_turns(pool, turns);
            &&& end.queue.len() == 0
            &&& forall|ip: IpAddr| #[trigger]
                probes_about(end.probes, ip) == if pool.queue.contains(ip) {
                    three_probes(ip)
                } else {
                    Seq::empty()
                }
        }),
{
    lemma_turns_stay_on_course(pool, turns);
    let end = pool_after_turns(pool, turns);
    assert(end.stages[0] == Stage::Stopped);
    assert forall|ip: IpAddr| #[trigger]
        probes_about(end.probes, ip) == if pool.queue.contains(ip) {
            three_probes(ip)
        } else {
            Seq::empty()
        } by {
        assert(!end.queue.contains(ip));
        assert(!in_hand(end.stages, ip)) by {
            assert forall|w: int| 0 <= w < end.stages.len() implies !is_about(
                #[trigger] end.stages[w],
                ip,
            ) by {
                assert(end.stages[w] == Stage::Stopped);
            }
        }
    }
}

/// The report at the end of an inspection: none where it was cancelled.
pub fn inspection_end(cancelled: bool) -> (r: Option<WorkerMessage>)
    ensures
        match r {
            Some(report) => !cancelled && report@ == MessageModel::Finished,
            None => cancelled,
        },
{
    if cancelled {
        None
    } else {
        Some(WorkerMessage::Finished)
    }
}

/// How the running of a scan came out.
#[derive(Clone, Debug)]
pub enum ScanOutcome {
    NoRuntime(String),
    Failed(String),
    Done,
}

/// What a series of reports holds.
pub open spec fn reports(messages: Seq<WorkerMessage>) -> Seq<MessageModel> {
    messages.map_values(|m: WorkerMessage| m@)
}

/// The reports at the end of a scan.
pub open spec fn scan_end_reports(ip: IpAddr, outcome: ScanOutcome, cancelled: bool) -> Seq<
    MessageModel,
> {
    match outcome {
        ScanOutcome::NoRuntime(error) => seq![
            MessageModel::Error("Failed to create async runtime: "@ + error@),
        ],
        ScanOutcome::Failed(error) => seq![MessageModel::Error(error@)],
        ScanOutcome::Done => if cancelled {
            Seq::empty()
        } else {
            seq![MessageModel::PortScanFinished { ip }, MessageModel::Finished]
        },
    }
}

/// The reports at the end of a scan of `ip`: an error, or that the scan has
/// ended, unless it was cancelled.
pub fn scan_end(ip: IpAddr, outcome: ScanOutcome, cancelled: bool) -> (r: Vec<WorkerMessage>)
    ensures
        reports(r@) == scan_end_reports(ip, outcome, cancelled),
{
    let ghost given = outcome;
    let mut out: Vec<WorkerMessage> = Vec::new();
    match outcome {
        ScanOutcome::NoRuntime(error) => {
            let mut text: String = "Failed to create async runtime: ".to_owned();
            text.append(error.as_str());
            out.push(WorkerMessage::Error(text));
        },
        ScanOutcome::Failed(error) => {
            out.push(WorkerMessage::Error(error));
        },
        ScanOutcome::Done => {
            if !cancelled {
                out.push(WorkerMessage::PortScanFinished { ip });
                out.push(WorkerMessage::Finished);
            }
        },
    }
    assert(reports(out@) =~= scan_end_reports(ip, given, cancelled));
    out
}

/// The report that a lookup begins names the domain.
pub proof fn a_lookup_is_announced_by_name(domain: &str, r: WorkerMessage)
    requires
        call_ensures(resolving, (domain,), r),
    ensures
        r is Status,
        r->Status_0@ == "Resolving "@ + domain@ + "..."@,
{
}

/// A lookup that found anything leads to exactly the addresses that it found, each
/// once, the older family first and by number within a family; one that found
/// nothing, or failed, leads to an error.
pub proof fn a_lookup_leads_to_what_it_found(
    lookup: Result<Vec<IpAddr>, String>,
    r: Result<Vec<IpAddr>, WorkerMessage>,
)
    requires
        call_ensures(resolution, (lookup,), r),
    ensures
        r is Ok <==> lookup is Ok && lookup->Ok_0@.len() > 0,
        r matches Ok(ips) ==> {
            &&& forall|ip: IpAddr| ips@.contains(ip) <==> lookup->Ok_0@.contains(ip)
            &&& forall|i: int, j: int|
                0 <= i < j < ips@.len() ==> comes_before(#[trigger] ips@[i], #[trigger] ips@[j])
        },
        r matches Err(report) ==> report is Error && report->Error_0@ == if lookup is Ok {
            "No IP addresses were found."@
        } else {
            "DNS resolution failed: "@ + lookup->Err_0@
        },
{
    if let Ok(ips) = r {
        let found = lookup->Ok_0;
        assert forall|ip: IpAddr| ips@.contains(ip) <==> found@.contains(ip) by {
            assert(ips@.to_set().contains(ip) <==> found@.to_set().contains(ip));
        }
        assert forall|i: int, j: int| 0 <= i < j < ips@.len() implies comes_before(
            #[trigger] ips@[i],
            #[trigger] ips@[j],
        ) by {
            rank_is_the_order(ips@[i], ips@[j]);
        }
    }
}

/// There are as many workers as were asked for, but never none and never more than
/// 128.
pub proof fn workers_are_as_many_as_asked(workers: usize, r: usize)
    requires
        call_ensures(worker_count, (workers,), r),
    ensures
        1 <= workers <= 128 ==> r == workers,
        1 <= r <= 128,
        workers > 128 ==> r == 128,
{
}

/// A worker goes through the probes of an address in their order. Where it is done
/// with one it takes the last of the queue, and only then is the queue shortened;
/// it stops where the queue is empty, where it is cancelled, and for good.
pub proof fn a_worker_goes_on_in_order(
    stage: Stage,
    cancelled: bool,
    queue: &mut Vec<IpAddr>,
    r: Stage,
)
    requires
        call_ensures(advance, (stage, cancelled, queue), r),
    ensures
        cancelled || stage is Stopped ==> r is Stopped,
        !cancelled ==> {
            &&& stage is Ping ==> r == Stage::ReverseDns(stage->Ping_0)
            &&& stage is ReverseDns ==> r == Stage::Geolocate(stage->ReverseDns_0)
            &&& stage is Idle || stage is Geolocate ==> if old(queue)@.len() > 0 {
                r is Ping
            } else {
                r is Stopped
            }
        },
        r is Ping ==> old(queue)@ == final(queue)@.push(r->Ping_0),
        !(r is Ping) ==> final(queue)@ == old(queue)@,
{
    if r is Ping {
        assert(old(queue)@ =~= final(queue)@.push(r->Ping_0));
    }
}

/// An inspection ends with one report, unless it was cancelled.
pub proof fn an_inspection_says_when_it_ends(cancelled: bool, r: Option<WorkerMessage>)
    requires
        call_ensures(inspection_end, (cancelled,), r),
    ensures
        r is Some <==> !cancelled,
        r matches Some(report) ==> report is Finished,
{
}

/// A scan that ran to its end says so, of its own address, and then that the work
/// is done; a cancelled one says nothing; one that failed gives its error, which
/// is all that it says, cancelled or not.
pub proof fn a_scan_says_how_it_ended(
    ip: IpAddr,
    outcome: ScanOutcome,
    cancelled: bool,
    r: Vec<WorkerMessage>,
)
    requires
        call_ensures(scan_end, (ip, outcome, cancelled), r),
    ensures
        outcome is Done && cancelled ==> r@.len() == 0,
        outcome is Done && !cancelled ==> {
            &&& r@.len() == 2
            &&& r@[0] == WorkerMessage::PortScanFinished { ip }
            &&& r@[1] is Finished
        },
        outcome is Failed ==> {
            &&& r@.len() == 1
            &&& r@[0] is Error
            &&& r@[0]->Error_0@ == outcome->Failed_0@
        },
        outcome is NoRuntime ==> {
            &&& r@.len() == 1
            &&& r@[0] is Error
            &&& r@[0]->Error_0@ == "Failed to create async runtime: "@ + outcome->NoRuntime_0@
        },
{
    let said = scan_end_reports(ip, outcome, cancelled);
    assert(reports(r@) == said);
    assert(r@.len() == said.len());
    assert forall|i: int| 0 <= i < r@.len() implies (#[trigger] r@[i])@ == said[i] by {
        assert(reports(r@)[i] == r@[i]@);
    }
}

} // verus!
