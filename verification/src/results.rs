//! The results of an inspection, kept by address.

use vstd::prelude::*;

use crate::addr::{comes_before, rank, rank_is_injective, rank_is_the_order, IpAddr};
use crate::geo::{GeoInfo, GeoModel};
use crate::scan::{PortScanState, ScanModel};

verus! {

/// What is known of an address.
#[derive(Clone, Debug)]
pub struct IpResult {
    pub ip: IpAddr,
    pub ping_ok: bool,
    pub rtt_ms: Option<u128>,
    pub reverse_dns: Option<String>,
    pub geo: Option<GeoInfo>,
    pub port_scan: Option<PortScanState>,
}

/// What an [`IpResult`] holds.
pub struct ResultModel {
    pub ip: IpAddr,
    pub ping_ok: bool,
    pub rtt_ms: Option<u128>,
    pub reverse_dns: Option<Seq<char>>,
    pub geo: Option<GeoModel>,
    pub port_scan: Option<ScanModel>,
}

/// What an optional value holds.
pub open spec fn opt_view<T: View>(value: Option<T>) -> Option<T::V> {
    match value {
        Some(inner) => Some(inner@),
        None => None,
    }
}

impl View for IpResult {
    type V = ResultModel;

    open spec fn view(&self) -> ResultModel {
        ResultModel {
            ip: self.ip,
            ping_ok: self.ping_ok,
            rtt_ms: self.rtt_ms,
            reverse_dns: opt_view(self.reverse_dns),
            geo: opt_view(self.geo),
            port_scan: opt_view(self.port_scan),
        }
    }
}

/// An address of which nothing is known yet.
pub open spec fn unknown_result(ip: IpAddr) -> ResultModel {
    ResultModel {
        ip,
        ping_ok: false,
        rtt_ms: None,
        reverse_dns: None,
        geo: None,
        port_scan: None,
    }
}

impl IpResult {
    /// The result for an address of which nothing is known yet.
    pub fn unknown(ip: IpAddr) -> (r: IpResult)
        ensures
            r@ == unknown_result(ip),
    {
        IpResult {
            ip,
            ping_ok: false,
            rtt_ms: None,
            reverse_dns: None,
            geo: None,
            port_scan: None,
        }
    }
}

/// The results of an inspection, one for each address.
pub struct ResultTable {
    entries: Vec<IpResult>,
}

spec fn ascending_entries(entries: Seq<IpResult>) -> bool {
    forall|i: int, j: int|
        0 <= i < j < entries.len() ==> rank(#[trigger] entries[i].ip) < rank(
            #[trigger] entries[j].ip,
        )
}

spec fn holds(entries: Seq<IpResult>, ip: IpAddr, i: int) -> bool {
    0 <= i < entries.len() && entries[i].ip == ip
}

spec fn map_of(entries: Seq<IpResult>) -> Map<IpAddr, ResultModel> {
    Map::new(
        |ip: IpAddr| exists|i: int| holds(entries, ip, i),
        |ip: IpAddr| entries[choose|i: int| holds(entries, ip, i)]@,
    )
}

impl View for ResultTable {
    type V = Map<IpAddr, ResultModel>;

    closed spec fn view(&self) -> Map<IpAddr, ResultModel> {
        map_of(self.entries@)
    }
}

/// `listing` holds the results of `table` in the order of their addresses.
pub open spec fn lists(listing: Seq<ResultModel>, table: Map<IpAddr, ResultModel>) -> bool {
    &&& forall|i: int, j: int|
        0 <= i < j < listing.len() ==> rank(#[trigger] listing[i].ip) < rank(
            #[trigger] listing[j].ip,
        )
    &&& forall|i: int|
        0 <= i < listing.len() ==> table.dom().contains(#[trigger] listing[i].ip)
            && table[listing[i].ip] == listing[i]
    &&& forall|ip: IpAddr| #[trigger]
        table.dom().contains(ip) ==> exists|i: int|
            0 <= i < listing.len() && #[trigger] listing[i].ip == ip
}

/// The results of `table` in the order of their addresses.
pub open spec fn in_order(table: Map<IpAddr, ResultModel>) -> Seq<ResultModel> {
    choose|listing: Seq<ResultModel>| lists(listing, table)
}

/// The results of a table can be listed in only one order.
pub proof fn listing_is_unique(a: Seq<ResultModel>, b: Seq<ResultModel>, table: Map<IpAddr, ResultModel>)
    requires
        lists(a, table),
        lists(b, table),
    ensures
        a == b,
{
    lemma_same_prefix(a, b, table, a.len() as int);
    lemma_same_prefix(b, a, table, b.len() as int);
    assert(a =~= b);
}

proof fn lemma_same_prefix(
    a: Seq<ResultModel>,
    b: Seq<ResultModel>,
    table: Map<IpAddr, ResultModel>,
    n: int,
)
    requires
        lists(a, table),
        lists(b, table),
        0 <= n <= a.len(),
    ensures
        n <= b.len(),
        forall|i: int| 0 <= i < n ==> #[trigger] a[i] == b[i],
    decreases n,
{
    if n > 0 {
        lemma_same_prefix(a, b, table, n - 1);
        let last = a[n - 1].ip;
        assert(table.dom().contains(last));
        let k = choose|k: int| 0 <= k < b.len() && #[trigger] b[k].ip == last;
        if k < n - 1 {
            assert(a[k] == b[k]);
            assert(rank(a[k].ip) < rank(a[n - 1].ip));
        }
        assert(n - 1 < b.len());
        let other = b[n - 1].ip;
        assert(table.dom().contains(other));
        let m = choose|m: int| 0 <= m < a.len() && #[trigger] a[m].ip == other;
        if m < n - 1 {
            assert(a[m] == b[m]);
            assert(rank(b[m].ip) < rank(b[n - 1].ip));
        }
        if k > n - 1 {
            assert(rank(b[n - 1].ip) < rank(b[k].ip));
            if m > n - 1 {
                assert(rank(a[n - 1].ip) < rank(a[m].ip));
            }
        }
        assert(k == n - 1);
        assert(table[a[n - 1].ip] == a[n - 1]);
        assert(table[b[n - 1].ip] == b[n - 1]);
    }
}

proof fn lemma_entry(entries: Seq<IpResult>, i: int)
    requires
        ascending_entries(entries),
        0 <= i < entries.len(),
    ensures
        map_of(entries).dom().contains(entries[i].ip),
        map_of(entries)[entries[i].ip] == entries[i]@,
{
    let ip = entries[i].ip;
    assert(holds(entries, ip, i));
    let k = choose|k: int| holds(entries, ip, k);
    if k < i {
        assert(rank(entries[k].ip) < rank(entries[i].ip));
    } else if i < k {
        assert(rank(entries[i].ip) < rank(entries[k].ip));
    }
}

proof fn lemma_listing(entries: Seq<IpResult>)
    requires
        ascending_entries(entries),
    ensures
        in_order(map_of(entries)) == entries.map_values(|e: IpResult| e@),
        lists(in_order(map_of(entries)), map_of(entries)),
{
    let listing = entries.map_values(|e: IpResult| e@);
    let table = map_of(entries);
    assert(lists(listing, table)) by {
        assert forall|i: int| 0 <= i < listing.len() implies table.dom().contains(
            #[trigger] listing[i].ip,
        ) && table[listing[i].ip] == listing[i] by {
            lemma_entry(entries, i);
        }
        assert forall|i: int, j: int| 0 <= i < j < listing.len() implies rank(
            #[trigger] listing[i].ip,
        ) < rank(#[trigger] listing[j].ip) by {
            assert(rank(entries[i].ip) < rank(entries[j].ip));
        }
        assert forall|ip: IpAddr| #[trigger] table.dom().contains(ip) implies exists|i: int|
            0 <= i < listing.len() && #[trigger] listing[i].ip == ip by {
            let i = choose|i: int| holds(entries, ip, i);
            assert(listing[i].ip == ip);
        }
    }
    listing_is_unique(listing, in_order(table), table);
}

/// The position of the first entry that does not come before `ip`.
fn locate(entries: &Vec<IpResult>, ip: &IpAddr) -> (at: usize)
    requires
        ascending_entries(entries@),
    ensures
        at <= entries@.len(),
        forall|i: int| 0 <= i < at ==> rank(#[trigger] entries@[i].ip) < rank(*ip),
        forall|i: int| at <= i < entries@.len() ==> rank(*ip) <= rank(#[trigger] entries@[i].ip),
{
    let mut at: usize = 0;
    while at < entries.len() && entries[at].ip.precedes(ip)
        invariant
            at <= entries@.len(),
            forall|i: int| 0 <= i < at ==> rank(#[trigger] entries@[i].ip) < rank(*ip),
        decreases entries@.len() - at,
    {
        at = at + 1;
    }
    assert forall|i: int| at <= i < entries@.len() implies rank(*ip) <= rank(
        #[trigger] entries@[i].ip,
    ) by {
        if at < i {
            assert(rank(entries@[at as int].ip) < rank(entries@[i].ip));
        }
    }
    at
}

/// The position of the entry for `ip`.
fn find(entries: &Vec<IpResult>, ip: &IpAddr) -> (r: Option<usize>)
    requires
        ascending_entries(entries@),
    ensures
        match r {
            Some(at) => {
                &&& at < entries@.len()
                &&& entries@[at as int].ip == *ip
                &&& map_of(entries@).dom().contains(*ip)
                &&& map_of(entries@)[*ip] == entries@[at as int]@
            },
            None => !map_of(entries@).dom().contains(*ip),
        },
{
    let at: usize = locate(entries, ip);
    if at < entries.len() && entries[at].ip == *ip {
        proof {
            lemma_entry(entries@, at as int);
        }
        Some(at)
    } else {
        proof {
            if exists|i: int| holds(entries@, *ip, i) {
                let i = choose|i: int| holds(entries@, *ip, i);
                if at < i {
                    assert(rank(entries@[at as int].ip) < rank(entries@[i].ip));
                }
                rank_is_injective(*ip, entries@[at as int].ip);
                assert(false);
            }
        }
        None
    }
}

impl ResultTable {
    #[verifier::type_invariant]
    spec fn ordered(self) -> bool {
        ascending_entries(self.entries@)
    }

    /// A table without results.
    pub fn new() -> (r: ResultTable)
        ensures
            r@ == Map::<IpAddr, ResultModel>::empty(),
    {
        let r: ResultTable = ResultTable { entries: Vec::new() };
        assert(r@ =~= Map::<IpAddr, ResultModel>::empty()) by {
            assert forall|ip: IpAddr| !r@.dom().contains(ip) by {
                assert(forall|i: int| !holds(r.entries@, ip, i));
            }
        }
        r
    }

    /// The number of results.
    pub fn len(&self) -> (r: usize)
        ensures
            r == in_order(self@).len(),
            lists(in_order(self@), self@),
    {
        proof {
            use_type_invariant(self);
            lemma_listing(self.entries@);
        }
        self.entries.len()
    }

    /// The result at the given place in the order of the addresses.
    pub fn at(&self, i: usize) -> (r: &IpResult)
        requires
            i < in_order(self@).len(),
        ensures
            r@ == in_order(self@)[i as int],
            lists(in_order(self@), self@),
    {
        proof {
            use_type_invariant(self);
            lemma_listing(self.entries@);
        }
        &self.entries[i]
    }

    /// The result for `ip`.
    pub fn get(&self, ip: &IpAddr) -> (r: Option<&IpResult>)
        ensures
            match r {
                Some(result) => self@.dom().contains(*ip) && result@ == self@[*ip],
                None => !self@.dom().contains(*ip),
            },
    {
        proof {
            use_type_invariant(self);
        }
        match find(&self.entries, ip) {
            Some(at) => Some(&self.entries[at]),
            None => None,
        }
    }

    /// Takes the result for `ip` out of the table.
    pub fn remove(&mut self, ip: &IpAddr) -> (r: Option<IpResult>)
        ensures
            final(self)@ == old(self)@.remove(*ip),
            match r {
                Some(result) => old(self)@.dom().contains(*ip) && result@ == old(self)@[*ip]
                    && result.ip == *ip,
                None => !old(self)@.dom().contains(*ip),
            },
    {
        proof {
            use_type_invariant(&*self);
        }
        match find(&self.entries, ip) {
            Some(at) => {
                let mut entries: Vec<IpResult> = Vec::new();
                std::mem::swap(&mut entries, &mut self.entries);
                let ghost before = entries@;
                let result: IpResult = entries.remove(at);
                proof {
                    let after = entries@;
                    assert(after == before.remove(at as int));
                    assert forall|i: int, j: int| 0 <= i < j < after.len() implies rank(
                        #[trigger] after[i].ip,
                    ) < rank(#[trigger] after[j].ip) by {
                        let bi = if i < at { i } else { i + 1 };
                        let bj = if j < at { j } else { j + 1 };
                        assert(rank(before[bi].ip) < rank(before[bj].ip));
                    }
                    assert forall|k: IpAddr| map_of(after).dom().contains(k) <==> map_of(before).remove(
                        *ip,
                    ).dom().contains(k) by {
                        if map_of(after).dom().contains(k) {
                            let i = choose|i: int| holds(after, k, i);
                            let bi = if i < at { i } else { i + 1 };
                            assert(holds(before, k, bi));
                            if bi < at {
                                assert(rank(before[bi].ip) < rank(before[at as int].ip));
                            } else {
                                assert(rank(before[at as int].ip) < rank(before[bi].ip));
                            }
                        }
                        if map_of(before).remove(*ip).dom().contains(k) {
                            let i = choose|i: int| holds(before, k, i);
                            assert(i != at);
                            let ai = if i < at { i } else { i - 1 };
                            assert(holds(after, k, ai));
                        }
                    }
                    assert forall|k: IpAddr| map_of(after).dom().contains(k) implies map_of(after)[k]
                        == map_of(before).remove(*ip)[k] by {
                        let i = choose|i: int| holds(after, k, i);
                        let bi = if i < at { i } else { i + 1 };
                        lemma_entry(after, i);
                        lemma_entry(before, bi);
                    }
                    assert(map_of(after) =~= map_of(before).remove(*ip));
                }
                self.entries = entries;
                Some(result)
            },
            None => {
                assert(self@.remove(*ip) =~= self@);
                None
            },
        }
    }

    /// Puts a result into the table, in the place of the one for the same address
    /// where there is one.
    pub fn insert(&mut self, result: IpResult)
        ensures
            final(self)@ == old(self)@.insert(result.ip, result@),
    {
        let ip: IpAddr = result.ip;
        let _ = self.remove(&ip);
        let ghost table = self@;
        proof {
            use_type_invariant(&*self);
        }
        let mut entries: Vec<IpResult> = Vec::new();
        std::mem::swap(&mut entries, &mut self.entries);
        let ghost before = entries@;
        let at: usize = locate(&entries, &ip);
        let ghost added = result;
        entries.insert(at, result);
        proof {
            let after = entries@;
            assert(after == before.insert(at as int, added));
            assert(!map_of(before).dom().contains(ip));
            assert forall|i: int| 0 <= i < before.len() implies rank(#[trigger] before[i].ip) != rank(
                ip,
            ) by {
                if rank(before[i].ip) == rank(ip) {
                    rank_is_injective(before[i].ip, ip);
                    assert(holds(before, ip, i));
                }
            }
            assert forall|i: int, j: int| 0 <= i < j < after.len() implies rank(
                #[trigger] after[i].ip,
            ) < rank(#[trigger] after[j].ip) by {
                let bi = if i < at { i } else { i - 1 };
                let bj = if j < at { j } else { j - 1 };
                if i != at && j != at {
                    assert(rank(before[bi].ip) < rank(before[bj].ip));
                } else if i == at {
                    assert(rank(ip) <= rank(before[bj].ip));
                } else {
                    assert(rank(before[bi].ip) < rank(ip));
                }
            }
            let goal = map_of(before).insert(ip, added@);
            assert forall|k: IpAddr| map_of(after).dom().contains(k) <==> goal.dom().contains(k) by {
                if map_of(after).dom().contains(k) {
                    let i = choose|i: int| holds(after, k, i);
                    if i != at {
                        let bi = if i < at { i } else { i - 1 };
                        assert(holds(before, k, bi));
                    }
                }
                if map_of(before).dom().contains(k) {
                    let i = choose|i: int| holds(before, k, i);
                    let ai = if i < at { i } else { i + 1 };
                    assert(holds(after, k, ai));
                }
                if k == ip {
                    assert(holds(after, k, at as int));
                }
            }
            assert forall|k: IpAddr| map_of(after).dom().contains(k) implies map_of(after)[k]
                == goal[k] by {
                let i = choose|i: int| holds(after, k, i);
                lemma_entry(after, i);
                if i != at {
                    let bi = if i < at { i } else { i - 1 };
                    lemma_entry(before, bi);
                    assert(rank(before[bi].ip) != rank(ip));
                }
            }
            assert(map_of(after) =~= goal);
        }
        self.entries = entries;
        assert(old(self)@.remove(ip).insert(ip, added@) =~= old(self)@.insert(ip, added@));
    }

    /// Takes every result out of the table.
    pub fn clear(&mut self)
        ensures
            final(self)@ == Map::<IpAddr, ResultModel>::empty(),
    {
        *self = ResultTable::new();
    }
}

/// Nothing is known at first of an address but the address.
pub proof fn nothing_is_known_at_first(ip: IpAddr, r: IpResult)
    requires
        call_ensures(IpResult::unknown, (ip,), r),
    ensures
        r.ip == ip,
        !r.ping_ok,
        r.rtt_ms is None,
        r.reverse_dns is None,
        r.geo is None,
        r.port_scan is None,
{
    assert(r@ == unknown_result(ip));
}

/// A result is found under its address once it has been put into the table, and
/// what was found under any other address before is found there still.
pub proof fn a_result_is_found_under_its_address(
    table: &mut ResultTable,
    result: IpResult,
    ip: IpAddr,
)
    requires
        call_ensures(ResultTable::insert, (table, result), ()),
    ensures
        final(table)@.dom().contains(result.ip),
        final(table)@[result.ip] == result@,
        ip != result.ip ==> final(table)@.dom().contains(ip) == old(table)@.dom().contains(ip),
        ip != result.ip && old(table)@.dom().contains(ip) ==> final(table)@[ip] == old(table)@[ip],
{
}

/// The results stand in the order of their addresses, each under the address that
/// it is about.
pub proof fn results_stand_in_order(table: &ResultTable, i: usize, j: usize, a: &IpResult, b: &IpResult)
    requires
        i < j,
        j < in_order(table@).len(),
        call_ensures(ResultTable::at, (table, i), a),
        call_ensures(ResultTable::at, (table, j), b),
    ensures
        comes_before(a.ip, b.ip),
        table@.dom().contains(a.ip),
        table@[a.ip] == a@,
{
    let listing = in_order(table@);
    assert(listing[i as int] == a@ && listing[j as int] == b@);
    assert(rank(listing[i as int].ip) < rank(listing[j as int].ip));
    rank_is_the_order(a.ip, b.ip);
}

/// Each address that is known has its place in the order.
pub proof fn each_result_has_its_place(table: &ResultTable, n: usize, ip: IpAddr)
    requires
        call_ensures(ResultTable::len, (table,), n),
        table@.dom().contains(ip),
    ensures
        exists|i: int|
            0 <= i < n && (#[trigger] in_order(table@)[i]).ip == ip && in_order(table@)[i]
                == table@[ip],
{
    let listing = in_order(table@);
    let i = choose|i: int| 0 <= i < listing.len() && #[trigger] listing[i].ip == ip;
    assert(listing[i].ip == ip);
}

/// A result is seen as it is.
pub proof fn a_result_is_seen_as_it_is(result: IpResult)
    ensures
        result@.ip == result.ip,
        result@.ping_ok == result.ping_ok,
        result@.rtt_ms == result.rtt_ms,
        result.reverse_dns is None <==> result@.reverse_dns is None,
        result.reverse_dns matches Some(name) ==> result@.reverse_dns == Some(name@),
        result.geo is None <==> result@.geo is None,
        result.geo matches Some(geo) ==> {
            let seen = result@.geo->0;
            &&& seen.country == geo.country@ && seen.region == geo.region@
            &&& seen.city == geo.city@ && seen.isp == geo.isp@ && seen.org == geo.org@
            &&& seen.latitude == geo.latitude && seen.longitude == geo.longitude
        },
        result.port_scan is None <==> result@.port_scan is None,
        result.port_scan matches Some(scan) ==> {
            let seen = result@.port_scan->0;
            &&& seen.completed == scan.completed && seen.total == scan.total
            &&& seen.open == scan.open && seen.closed == scan.closed
            &&& seen.filtered == scan.filtered && seen.finished == scan.finished
            &&& seen.open_ports == scan.open_ports@ && seen.started_at == scan.started_at
        },
{
    if let Some(geo) = result.geo {
        assert(result@.geo == Some(geo@));
    }
    if let Some(scan) = result.port_scan {
        assert(result@.port_scan == Some(scan@));
    }
}

} // verus!
